use mterm::distro::{sanitize_path, sha256sums_entry};
use mterm::names::NameMap;
use mterm::pkg::{merge_listed, Listed};
use mterm::profile::{add_profile, default_profiles, ensure_full, select};
use mterm::agent::{
    log_path, on_answer, on_ask, on_request, parse_request, pid_path, session_path, socket_path,
    stub_reply, workspace_path, Msg, Reply, Request, Session, Step,
};
use mterm::distro::arch_tag;
use mterm::pidfile::{parse_pid, pid_text, pid_to_stop};
use mterm::pkg::{
    archive_name, base_url, check_sha, hex_string, hexv, index_entry, install_spec, mirrors_add,
    mirrors_remove, name_version, parse_flag, parse_key_hex, parts_digest_ok, pub_of_priv, sha256_hex,
    short, sign_bytes, split_parts, verify_bytes, Mirror, PART_SIZE,
};

fn unhex(s: &str) -> Vec<u8> {
    (0..s.len() / 2)
        .map(|i| u8::from_str_radix(&s[2 * i..2 * i + 2], 16).unwrap())
        .collect()
}

fn key32(s: &str) -> [u8; 32] {
    let v = unhex(s);
    let mut k = [0u8; 32];
    k.copy_from_slice(&v);
    k
}

#[test]
fn arch_tag_selaras_dengan_rust_arch() {
    let tag = arch_tag(mterm::tool::ARCH);
    assert!(
        tag == "arm64" || tag == "amd64",
        "arch tag tidak dikenal: {tag}"
    );
}

#[test]
fn arch_tag_maps_known_names_and_keeps_others() {
    assert_eq!(arch_tag("aarch64"), "arm64");
    assert_eq!(arch_tag("x86_64"), "amd64");
    assert_eq!(arch_tag("riscv64"), "riscv64");
}

#[test]
fn sha256_known_vectors() {
    assert_eq!(
        sha256_hex(b"abc"),
        "ba7816bf8f01cfea414140de5dae2223b00361a396177a9cb410ff61f20015ad"
    );
    assert_eq!(
        sha256_hex(b""),
        "e3b0c44298fc1c149afbf4c8996fb92427ae41e4649b934ca495991b7852b855"
    );
    assert!(check_sha(
        b"abc",
        "ba7816bf8f01cfea414140de5dae2223b00361a396177a9cb410ff61f20015ad"
    ));
    assert!(!check_sha(b"abd", "ba7816bf8f01cfea414140de5dae2223b00361a396177a9cb410ff61f20015ad"));
}

#[test]
fn hex_text_and_digits() {
    assert_eq!(hex_string(&[0x00, 0xff, 0x1a]), "00ff1a");
    assert_eq!(hex_string(&[]), "");
    assert_eq!(hexv(b'7'), Some(7));
    assert_eq!(hexv(b'c'), Some(12));
    assert_eq!(hexv(b'C'), None);
    assert_eq!(hexv(b'g'), None);
}

#[test]
fn key_hex_roundtrip_and_rejects() {
    let k: [u8; 32] = core::array::from_fn(|i| (i as u8).wrapping_mul(37).wrapping_add(5));
    let text = hex_string(&k);
    assert_eq!(parse_key_hex(&text), Some(k));
    assert_eq!(parse_key_hex(&format!("  {text}\n")), Some(k));
    assert_eq!(parse_key_hex(&text[..63]), None);
    assert_eq!(parse_key_hex(&text.to_uppercase()), None);
    assert_eq!(parse_key_hex(&format!("{}zz", &text[..62])), None);
}

#[test]
fn ed25519_rfc8032_vector() {
    let seed = key32("9d61b19deffd5a60ba844af492ec2cc44449c5697b326919703bac031cae7f60");
    let pk = pub_of_priv(&seed);
    assert_eq!(
        hex_string(&pk),
        "d75a980182b10ab7d54bfed3c964073a0ee172f3daa62325af021a68f707511a"
    );
    let sig = sign_bytes(&seed, b"");
    assert_eq!(
        hex_string(&sig),
        "e5564300c360ac729086e2cc806e828a84877f1eb8e5d974d873e065224901555fb8821590a33bacc61e39701cf9b46bd25bf5f0595bbe24655141438e7a100b"
    );
    assert!(verify_bytes(pk, b"", &sig));
}

#[test]
fn signature_verifies_and_tamper_is_rejected() {
    let seed = [7u8; 32];
    let pk = pub_of_priv(&seed);
    let data = b"{\"packages\":[]}";
    let sig = sign_bytes(&seed, data);
    assert_eq!(sig.len(), 64);
    assert!(verify_bytes(pk, data, &sig));
    assert!(!verify_bytes(pk, b"{\"packages\":[1]}", &sig));
    assert!(!verify_bytes(pk, data, &sig[..63]));
    let other = pub_of_priv(&[8u8; 32]);
    assert!(!verify_bytes(other, data, &sig));
}

#[test]
fn split_parts_cuts_at_part_size_and_reassembles() {
    let data: Vec<u8> = (0..PART_SIZE + 10).map(|i| (i % 251) as u8).collect();
    let parts = split_parts(&data);
    assert_eq!(parts.len(), 2);
    assert_eq!(parts[0].0.len(), PART_SIZE);
    assert_eq!(parts[1].0.len(), 10);
    assert_eq!(parts[0].2, PART_SIZE as u64);
    assert_eq!(parts[1].2, 10);
    assert_eq!(parts[0].1, sha256_hex(&data[..PART_SIZE]));
    assert_eq!(parts[1].1, sha256_hex(&data[PART_SIZE..]));
    let joined: Vec<u8> = parts.iter().flat_map(|p| p.0.clone()).collect();
    assert_eq!(joined, data);
    let bytes: Vec<Vec<u8>> = parts.iter().map(|p| p.0.clone()).collect();
    assert!(parts_digest_ok(&bytes, &sha256_hex(&data)));
    assert!(!parts_digest_ok(&bytes[..1].to_vec(), &sha256_hex(&data)));
    assert!(split_parts(&[]).is_empty());
}

#[test]
fn name_version_and_install_spec() {
    assert_eq!(name_version("demo-1.0.0"), ("demo".to_string(), "1.0.0".to_string()));
    assert_eq!(name_version("demo"), ("demo".to_string(), "1.0.0".to_string()));
    assert_eq!(name_version("-x"), ("-x".to_string(), "1.0.0".to_string()));
    assert_eq!(name_version("demo-"), ("demo-".to_string(), "1.0.0".to_string()));
    assert_eq!(install_spec("foo@1.2"), ("foo".to_string(), Some("1.2".to_string())));
    assert_eq!(install_spec("foo"), ("foo".to_string(), None));
    assert_eq!(install_spec("@scope"), ("@scope".to_string(), None));
}

#[test]
fn urls_names_and_flags() {
    assert_eq!(base_url("http://x//"), "http://x");
    assert_eq!(base_url("file:///repo"), "file:///repo");
    assert_eq!(archive_name("demo-1.0.0.tar.zst"), "demo-1.0.0");
    assert_eq!(archive_name("a.tar.zst.tar.zst"), "a");
    assert_eq!(archive_name("a.tar.gz"), "a.tar.gz");
    assert_eq!(short("0123456789abcdef"), "0123456789ab");
    assert_eq!(short("abc"), "abc");
    let args: Vec<String> = vec!["--to".into(), "x".into(), "--to".into(), "y".into()];
    assert_eq!(parse_flag(&args, "--to"), Some("x".to_string()));
    assert_eq!(parse_flag(&args, "--from"), None);
    let last: Vec<String> = vec!["a".into(), "--to".into()];
    assert_eq!(parse_flag(&last, "--to"), None);
}

#[test]
fn index_entry_describes_archive() {
    let e = index_entry("demo-1.0.0.tar.zst", b"halo");
    assert_eq!(e.name, "demo");
    assert_eq!(e.version, "1.0.0");
    assert_eq!(e.description, "paket demo");
    assert_eq!(e.sha256, sha256_hex(b"halo"));
    assert_eq!(e.size, 4);
    assert_eq!(e.parts, vec![(sha256_hex(b"halo"), 4)]);
}

#[test]
fn mirrors_add_replace_remove() {
    let ms = vec![
        Mirror { name: "a".into(), url: "u1".into() },
        Mirror { name: "b".into(), url: "u2".into() },
    ];
    let (added, replaced) = mirrors_add(&ms, "a", "u3");
    assert!(replaced);
    let names: Vec<(String, String)> = added.iter().map(|m| (m.name.clone(), m.url.clone())).collect();
    assert_eq!(names, vec![("b".into(), "u2".into()), ("a".into(), "u3".into())]);
    let (fresh, replaced2) = mirrors_add(&ms, "c", "u4");
    assert!(!replaced2);
    assert_eq!(fresh.len(), 3);
    let (gone, removed) = mirrors_remove(&added, "a");
    assert!(removed);
    let (direct, _) = mirrors_remove(&ms, "a");
    let g: Vec<String> = gone.iter().map(|m| m.name.clone()).collect();
    let d: Vec<String> = direct.iter().map(|m| m.name.clone()).collect();
    assert_eq!(g, d);
    let (same, removed2) = mirrors_remove(&ms, "zzz");
    assert!(!removed2);
    assert_eq!(same.len(), 2);
}

#[test]
fn agent_paths_under_home() {
    assert_eq!(socket_path("/home/u", "/w"), "/home/u/.mterm/agent/_00002fw/agent.sock");
    assert_eq!(pid_path("/home/u/", "ab1"), "/home/u/.mterm/agent/ab1/agent.pid");
    assert_eq!(session_path("/h", "/tmp"), "/h/.mterm/agent/_00002ftmp/session.json");
    assert_eq!(log_path("", "x_y"), ".mterm/agent/x_00005fy/agent.log");
    assert_eq!(workspace_path("/h", "é"), "/h/.mterm/agent/_0000e9");
    assert_ne!(socket_path("/h", "/a/b"), socket_path("/h", "/a_b"));
    assert_ne!(socket_path("/h", "/home/x/mterm"), socket_path("/h", "/tmp"));
}

#[test]
fn ask_appends_and_rolls_back_on_error() {
    let mut s = Session { workspace: "/w".into(), messages: vec![] };
    assert!(!s.ask_begin("   "));
    assert!(s.messages.is_empty());
    assert!(s.ask_begin("  halo \n"));
    assert_eq!(s.messages.len(), 1);
    assert_eq!(s.messages[0].role, "user");
    assert_eq!(s.messages[0].content, "halo");
    let reply = stub_reply(&s.messages);
    assert_eq!(reply, "[stub] kamu bilang: halo");
    assert_eq!(s.ask_end(Ok(reply)), None);
    assert_eq!(s.messages.len(), 2);
    assert_eq!(s.messages[1].role, "assistant");
    assert!(s.ask_begin("lagi"));
    assert_eq!(s.ask_end(Err("model gagal".into())), Some("model gagal".to_string()));
    assert_eq!(s.messages.len(), 2);
    assert_eq!(s.workspace, "/w");
    assert_eq!(stub_reply(&[]), "[stub] kamu bilang: ");
    let _ = Msg { role: "x".into(), content: "y".into() };
}

#[test]
fn pid_text_reads_back() {
    assert_eq!(pid_text(42), "42");
    assert_eq!(pid_text(0), "0");
    assert_eq!(pid_text(u32::MAX), "4294967295");
    assert_eq!(parse_pid(&pid_text(42)), Some(42));
    assert_eq!(parse_pid(" 42\n"), Some(42));
    assert_eq!(parse_pid("+7"), Some(7));
    assert_eq!(parse_pid("4294967296"), None);
    assert_eq!(parse_pid("-1"), None);
    assert_eq!(parse_pid("4x"), None);
    assert_eq!(parse_pid(""), None);
    assert_eq!(parse_pid("٤٢"), None);
}

#[test]
fn name_map_keeps_name_order() {
    let mut m: NameMap<u32> = NameMap::new();
    m.insert("web".to_string(), 1);
    m.insert("dev".to_string(), 2);
    m.insert("full".to_string(), 3);
    m.insert("dev".to_string(), 4);
    assert_eq!(m.keys, vec!["dev".to_string(), "full".to_string(), "web".to_string()]);
    assert_eq!(m.vals, vec![4, 3, 1]);
    assert_eq!(m.get("full"), Some(&3));
    assert_eq!(m.get("zzz"), None);
    assert_eq!(m.len(), 3);
    assert_eq!(m.remove("full"), Some(3));
    assert_eq!(m.remove("full"), None);
    assert!(!m.contains("full"));
    m.insert("Über".to_string(), 5);
    m.insert("Zeta".to_string(), 6);
    assert_eq!(m.keys, vec!["Zeta".to_string(), "dev".to_string(), "web".to_string(), "Über".to_string()]);
    assert!(mterm::names::lex_less("ab", "abc"));
    assert!(!mterm::names::lex_less("abc", "abc"));
    assert!(mterm::names::lex_less("abc", "abd"));
}

#[test]
fn profile_defaults_upgrade_use_add() {
    let mut p = default_profiles();
    assert_eq!(p.available.keys, vec!["dev".to_string(), "full".to_string(), "web".to_string()]);
    assert_eq!(p.available.get("dev").unwrap().runtimes, vec!["git", "node", "ripgrep"]);
    assert_eq!(p.available.get("full").unwrap().runtimes, vec!["python", "go", "git", "node"]);
    assert_eq!(p.available.get("web").unwrap().theme.as_deref(), Some("dark"));
    assert!(!ensure_full(&mut p));
    p.available.remove("full");
    assert!(ensure_full(&mut p));
    assert!(p.available.contains("full"));
    assert!(!select(&mut p, "nope"));
    assert_eq!(p.current, None);
    assert!(select(&mut p, "web"));
    assert_eq!(p.current.as_deref(), Some("web"));
    add_profile(&mut p, "ml", vec!["python".to_string()]);
    assert_eq!(p.available.get("ml").unwrap().runtimes, vec!["python"]);
    assert_eq!(p.available.keys.len(), 4);
}

#[test]
fn merge_listed_keeps_same_version_takes_other() {
    let mut m: NameMap<Listed> = NameMap::new();
    assert!(merge_listed(&mut m, "demo", "1.0.0", 0));
    assert!(!merge_listed(&mut m, "demo", "1.0.0", 1));
    assert_eq!(m.get("demo").unwrap().slot, 0);
    assert!(merge_listed(&mut m, "demo", "2.0.0", 2));
    assert_eq!(m.get("demo").unwrap().slot, 2);
    assert_eq!(m.get("demo").unwrap().version, "2.0.0");
    assert!(merge_listed(&mut m, "abc", "0.1", 3));
    assert_eq!(m.keys, vec!["abc".to_string(), "demo".to_string()]);
}

#[test]
fn sha256sums_lookup() {
    let sums = "aaa *ubuntu-base-24.04.5-base-amd64.tar.gz\r\nbbb *ubuntu-base-24.04.5-base-arm64.tar.gz  \n";
    assert_eq!(
        sha256sums_entry(sums, "ubuntu-base-24.04.5-base-arm64.tar.gz"),
        Some("bbb".to_string())
    );
    assert_eq!(
        sha256sums_entry(sums, "ubuntu-base-24.04.5-base-amd64.tar.gz"),
        Some("aaa".to_string())
    );
    assert_eq!(sha256sums_entry(sums, "nope.tar.gz"), None);
    assert_eq!(sha256sums_entry("", "x"), None);
}

#[test]
fn tar_paths_are_sanitized() {
    assert_eq!(sanitize_path(b"/etc/passwd"), vec![b"etc".to_vec(), b"passwd".to_vec()]);
    assert_eq!(sanitize_path(b"a/../b"), vec![b"a".to_vec(), b"b".to_vec()]);
    assert_eq!(
        sanitize_path(b"./usr//bin/../sh"),
        vec![b"usr".to_vec(), b"bin".to_vec(), b"sh".to_vec()]
    );
    assert_eq!(sanitize_path(b"a/b/"), vec![b"a".to_vec(), b"b".to_vec()]);
    assert!(sanitize_path(b"..").is_empty());
}

#[test]
fn pid_to_stop_refuses_zero_and_large() {
    assert_eq!(pid_to_stop(" 42\n"), Some(42));
    assert_eq!(pid_to_stop("0"), None);
    assert_eq!(pid_to_stop("2147483647"), Some(i32::MAX));
    assert_eq!(pid_to_stop("2147483648"), None);
    assert_eq!(pid_to_stop("abc"), None);
}

fn done_error(r: &Reply) -> Option<String> {
    match r {
        Reply::Done { error, .. } => error.clone(),
        _ => panic!("not done"),
    }
}

#[test]
fn protocol_requests_and_steps() {
    assert!(matches!(parse_request("{\"cmd\":\"ping\"}"), Request::Ping));
    assert!(matches!(parse_request("{\"cmd\":\"reset\"}\n"), Request::Reset));
    assert!(matches!(parse_request("{\"cmd\":\"ask\",\"text\":\"hi\"}"), Request::Ask(t) if t == "hi"));
    assert!(matches!(parse_request("{\"cmd\":\"ask\"}"), Request::Ask(t) if t.is_empty()));
    assert!(matches!(parse_request("{\"cmd\":\"fly\"}"), Request::Unknown));
    assert!(matches!(parse_request("{\"text\":1}"), Request::Unknown));
    assert!(matches!(parse_request("not json"), Request::Bad));
    assert!(matches!(on_request(Request::Ping), Step::Answer(Reply::Pong)));
    match on_request(Request::Bad) {
        Step::Close(r) => assert_eq!(done_error(&r), Some("bad request".to_string())),
        _ => panic!("bad request closes"),
    }
    match on_request(Request::Unknown) {
        Step::Answer(r) => assert_eq!(done_error(&r), Some("unknown cmd".to_string())),
        _ => panic!("unknown cmd"),
    }
    assert!(matches!(on_request(Request::Reset), Step::Reset(Reply::Done { error: None, reset: true })));
    assert!(matches!(on_request(Request::Ask("q".into())), Step::Ask(t) if t == "q"));
}

#[test]
fn protocol_ask_and_answer() {
    let mut s = Session { workspace: "/w".into(), messages: vec![] };
    let (r, ok) = on_ask(&mut s, "  ");
    assert!(!ok);
    assert_eq!(done_error(&r), Some("empty".to_string()));
    assert!(s.messages.is_empty());
    let (r, ok) = on_ask(&mut s, " halo ");
    assert!(ok);
    assert!(matches!(r, Reply::Meta { ref workspace, history: 1 } if workspace == "/w"));
    let r = on_answer(&mut s, Err("boom".into()));
    assert_eq!(done_error(&r), Some("boom".to_string()));
    assert!(s.messages.is_empty());
    let _ = on_ask(&mut s, "lagi");
    let r = on_answer(&mut s, Ok("jawab".into()));
    assert_eq!(done_error(&r), None);
    assert_eq!(s.messages.len(), 2);
    assert_eq!(s.messages[1].content, "jawab");
}

#[test]
fn params_flatten_in_order() {
    let g: Vec<Vec<u16>> = vec![vec![38], vec![2, 1, 2, 3], vec![]];
    assert_eq!(mterm::vt::params_flat(&g), vec![38, 2, 1, 2, 3]);
    assert!(mterm::vt::params_flat(&vec![]).is_empty());
}

#[test]
fn missing_parts_are_the_uncached_ones() {
    assert_eq!(mterm::pkg::missing_parts(&[true, false, false, true, false]), vec![1, 2, 4]);
    assert!(mterm::pkg::missing_parts(&[true, true]).is_empty());
    assert!(mterm::pkg::missing_parts(&[]).is_empty());
}

#[test]
fn proot_argv_drops_separators_and_keeps_order() {
    let args = vec!["--".to_string(), "-c".to_string(), "echo hi".to_string(), "--".to_string()];
    let argv = mterm::distro::proot_argv("/data/ubuntu", "/lib/ld-linux-aarch64.so.1", &args);
    let want: Vec<String> = [
        "-0",
        "-r",
        "/data/ubuntu",
        "-w",
        "/",
        "-b",
        "/dev",
        "-b",
        "/proc",
        "-b",
        "/sys",
        "--link2symlink",
        "/lib/ld-linux-aarch64.so.1",
        "/bin/sh",
        "-l",
        "-c",
        "echo hi",
    ]
    .iter()
    .map(|s| s.to_string())
    .collect();
    assert_eq!(argv, want);
}

#[test]
fn proot_argv_without_guest_args() {
    let argv = mterm::distro::proot_argv("/r", "/ld.so", &[]);
    assert_eq!(argv.len(), 15);
    assert_eq!(argv[2], "/r");
    assert_eq!(argv[12], "/ld.so");
    assert_eq!(argv[14], "-l");
}
