use mterm::distro::latest_version;
use mterm::render::markdown_to_ansi;
use mterm::runtime::{runtime_for, runtimes};
use mterm::tool::{deb_url, parse_pkg_index, REPO};

const RESET: &str = "\x1b[0m";
const STYLES: [&str; 6] = [
    "\x1b[38;5;148m",
    "\x1b[1m",
    "\x1b[3m",
    "\x1b[1;32m",
    "\x1b[1;33m",
    "\x1b[1;36m",
];

fn inline_str(s: &str) -> String {
    let chars: Vec<char> = s.chars().collect();
    mterm::render::inline(&chars).into_iter().collect()
}

// ── markdown ──────────────────────────────────────────────────────────────

#[test]
fn plain_when_no_color() {
    let md = "# Judul\n\n**tebal** dan `kode` dan [link](https://x.test)\n";
    let out = markdown_to_ansi(md, false);
    assert!(out.contains("**tebal**"), "no style: plain");
    assert!(!out.contains('\x1b'), "no escape");
}

#[test]
fn headings_lists_fence_rendered() {
    let md = "# H1\n## H2\n- item\n```rs\nlet x = 1;\n```\n> kutipan\n";
    let out = markdown_to_ansi(md, true);
    assert!(out.contains("\x1b[1;32m"), "H1 style");
    assert!(out.contains("\x1b[1;33m"), "H2 style");
    assert!(out.contains("• item"));
    assert!(out.contains("let x = 1;"));
    assert!(out.contains("│ kutipan"), "blockquote");
}

#[test]
fn inline_bold_code_link() {
    let out = inline_str("**bold** `x` [a](https://u.test) *miring*");
    assert!(out.contains("\x1b[1m") && out.contains("bold"));
    assert!(out.contains("x") && out.contains("\x1b[38;5;148m"));
    assert!(!out.contains("https://u.test"), "link URL dropped");
    assert!(out.contains("a"), "link text kept");
    let plain = out
        .replace(STYLES[0], "")
        .replace(STYLES[1], "")
        .replace(STYLES[2], "")
        .replace(STYLES[3], "")
        .replace(STYLES[4], "")
        .replace(STYLES[5], "")
        .replace(RESET, "");
    assert!(!plain.contains('['), "no bracket left: {plain:?}");
    assert!(!plain.contains('('), "no parenthesis left: {plain:?}");
}

#[test]
fn table_passthrough_no_heading() {
    let out = markdown_to_ansi("| a | b |\n|---|---|\n| 1 | 2 |\n", true);
    assert!(!out.contains("\x1b[1;32m"), "table rows are no headings");
}

#[test]
fn text_after_fence_is_paragraph_not_code() {
    let md = "```rs\nlet x = 1;\n```\nparagraf setelah fence\n";
    let out = markdown_to_ansi(md, true);
    assert!(out.contains("let x = 1;"), "fence content");
    let plain = out.replace("\x1b[38;5;245m", "").replace(RESET, "");
    let after_para = out[out.find("paragraf setelah").unwrap()..].to_string();
    assert!(
        !after_para.starts_with("\x1b[38;5;245m"),
        "the paragraph is no code: {plain:?}"
    );
}

#[test]
fn unicode_inline_utf8() {
    let out = inline_str("halo **dunia 🌍** dan `kode`");
    assert!(out.contains("dunia 🌍"), "UTF-8 bold body intact");
    assert!(out.contains("kode"));
}

// ── runtimes ──────────────────────────────────────────────────────────────

#[test]
fn runtime_tabel_lengkap_dan_unik() {
    let all = runtimes();
    let mut names: Vec<&str> = all.iter().map(|r| r.name).collect();
    names.sort();
    names.dedup();
    assert_eq!(names.len(), all.len(), "runtime names unique");
    for need in ["git", "node", "npm", "ripgrep", "python", "go"] {
        assert!(runtime_for(need).is_some(), "runtime {need} listed");
    }
}

#[test]
fn python_fallback_bin_ada_di_tabel() {
    let py = runtime_for("python").unwrap();
    assert!(py.bins.contains(&"python"), "python3 first, python as fallback");
}

// ── package index ─────────────────────────────────────────────────────────

#[test]
fn parse_index_ambil_nodejs_baris_pertama() {
    let idx = "\
Package: nodejs
Version: 26.4.0-1
Filename: pool/main/n/nodejs/nodejs_26.4.0-1_aarch64.deb
SHA256: eaf3ed8a6e4b72ebaa8c2cb3bad778c577cdf9ea87ca91761213d8a3940fc090

Package: npm
Version: 10.9.3-1
Filename: pool/main/n/npm/npm_10.9.3-1_aarch64.deb
SHA256: aaaaaaaaaaaaaaaaaaaaaaaaaaaaaaaaaaaaaaaaaaaaaaaaaaaaaaaaaaaaaaa1
";
    let (ver, file, sha) = parse_pkg_index(idx, "nodejs", None).unwrap();
    assert_eq!(ver, "26.4.0-1");
    assert!(file.ends_with("nodejs_26.4.0-1_aarch64.deb"));
    assert_eq!(sha.len(), 64);
}

#[test]
fn parse_index_filter_versi() {
    let idx = "\
Package: nodejs
Version: 26.4.0-1
Filename: a.deb
SHA256: abcdef0000000000000000000000000000000000000000000000000000000001

Package: nodejs
Version: 22.13.1-1
Filename: b.deb
SHA256: 1234000000000000000000000000000000000000000000000000000000000002
";
    let (v, f, _) = parse_pkg_index(idx, "nodejs", Some("22")).unwrap();
    assert_eq!(v, "22.13.1-1");
    assert!(f.ends_with("b.deb"));
    assert_eq!(parse_pkg_index(idx, "nodejs", Some("99")), None);
}

#[test]
fn parse_index_tidak_kena_paket_lain() {
    let idx = "\
Package: npm
Version: 10.9.3-1
Filename: pool/main/n/npm/npm_10.9.3-1_aarch64.deb
SHA256: 00000000000000000000000000000000000000000000000000000000000000aa

Package: nodejs
Version: 26.4.0-1
Filename: nodejs.deb
SHA256: bb000000000000000000000000000000000000000000000000000000000000bb
";
    let (v, _, _) = parse_pkg_index(idx, "nodejs", None).unwrap();
    assert_eq!(v, "26.4.0-1");
}

#[test]
fn deb_url_benar() {
    assert!(deb_url("pool/main/n/nodejs/nodejs.deb").contains(REPO));
}

// ── distro ────────────────────────────────────────────────────────────────

#[test]
fn latest_version_memilih_file_arm64_tertinggi() {
    let listing = "<a href='ubuntu-base-24.04.2-base-arm64.tar.gz'>
<a href='ubuntu-base-24.04.5-base-arm64.tar.gz'>
<a href='ubuntu-base-24.04.4-base-arm64.tar.gz'>
<a href='ubuntu-base-24.04.4-base-amd64.tar.gz'>";
    let best = latest_version(listing.as_bytes(), b"arm64").map(|(v, _, _)| v);
    assert_eq!(best, Some((24, 4, 5)), "highest arm64 version chosen");
    assert!(best != Some((24, 4, 4)));
}
