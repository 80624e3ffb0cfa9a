//! Pure parts of `mterm agent`: where its files live, and the conversation
//! a request updates (with rollback when the model fails).

use vstd::prelude::*;
use crate::render::{push_all, trim, trim_vec};
use crate::text::{chars_of, string_of, text};
use crate::tool::opt_string;
use crate::pkg::hex_char;

verus! {

/// `base` joined with a relative `comp` as a path (`Path::join`): a `/`
/// between them unless `base` is empty or already ends with one.
pub open spec fn join_path(base: Seq<char>, comp: Seq<char>) -> Seq<char> {
    if base.len() == 0 {
        comp
    } else if base.last() == '/' {
        base + comp
    } else {
        base + seq!['/'] + comp
    }
}

fn join(base: &[char], comp: &[char]) -> (r: Vec<char>)
    ensures
        r@ == join_path(base@, comp@),
{
    let mut v = crate::render::copy_range(base, 0, base.len());
    assert(v@ =~= base@);
    if base.len() > 0 && base[base.len() - 1] != '/' {
        v.push('/');
    }
    push_all(&mut v, comp);
    v
}

/// The agent's directory under the home directory.
pub open spec fn data_dir(home: Seq<char>) -> Seq<char> {
    join_path(join_path(home, ".mterm"@), "agent"@)
}

fn data_dir_of(home: &str) -> (r: Vec<char>)
    ensures
        r@ == data_dir(home@),
{
    let h = chars_of(home);
    let a = join(h.as_slice(), chars_of(".mterm").as_slice());
    join(a.as_slice(), chars_of("agent").as_slice())
}

/// An ASCII letter or digit.
pub open spec fn is_alnum(c: char) -> bool {
    let u = c as u32;
    (48 <= u <= 57) || (65 <= u <= 90) || (97 <= u <= 122)
}

/// Bits `k..k+4` of a character's code point.
pub open spec fn nib(c: char, k: u32) -> u8 {
    (((c as u32) >> k) & 15) as u8
}

/// A character in a workspace's directory name: letters and digits stand
/// for themselves, anything else is `_` and six hex digits of its code
/// point.
pub open spec fn enc_char(c: char) -> Seq<char> {
    if is_alnum(c) {
        seq![c]
    } else {
        seq![
            '_',
            hex_char(nib(c, 20)),
            hex_char(nib(c, 16)),
            hex_char(nib(c, 12)),
            hex_char(nib(c, 8)),
            hex_char(nib(c, 4)),
            hex_char(nib(c, 0)),
        ]
    }
}

/// The directory name of a workspace (its path, encoded character by
/// character). Different workspaces get different names
/// (`law_slug_injective`), and so different sockets
/// (`law_socket_per_workspace`).
pub open spec fn slug(w: Seq<char>) -> Seq<char>
    decreases w.len(),
{
    if w.len() == 0 {
        Seq::empty()
    } else {
        enc_char(w[0]) + slug(w.drop_first())
    }
}

pub proof fn lemma_slug_push(w: Seq<char>, c: char)
    ensures
        slug(w.push(c)) == slug(w) + enc_char(c),
    decreases w.len(),
{
    if w.len() == 0 {
        assert(w.push(c).drop_first() =~= Seq::<char>::empty());
        assert(slug(Seq::<char>::empty()) == Seq::<char>::empty());
        assert(w.push(c)[0] == c);
        assert(slug(w.push(c)) =~= enc_char(c) + Seq::<char>::empty());
        assert(slug(w) + enc_char(c) =~= enc_char(c));
    } else {
        lemma_slug_push(w.drop_first(), c);
        assert(w.push(c).drop_first() =~= w.drop_first().push(c));
        assert(w.push(c)[0] == w[0]);
        assert(slug(w.push(c)) =~= enc_char(w[0]) + (slug(w.drop_first()) + enc_char(c)));
    }
}

fn hex_digit(v: u32) -> (c: char)
    requires
        v < 16,
    ensures
        c == hex_char(v as u8),
{
    if v < 10 {
        ((48 + v) as u8) as char
    } else {
        ((97 + v - 10) as u8) as char
    }
}

fn push_enc(out: &mut Vec<char>, c: char)
    ensures
        final(out)@ == old(out)@ + enc_char(c),
{
    let u = c as u32;
    if (48 <= u && u <= 57) || (65 <= u && u <= 90) || (97 <= u && u <= 122) {
        out.push(c);
    } else {
        assert(forall|x: u32, k: u32| #[trigger] ((x >> k) & 15) < 16) by (bit_vector);
        out.push('_');
        out.push(hex_digit((u >> 20) & 15));
        out.push(hex_digit((u >> 16) & 15));
        out.push(hex_digit((u >> 12) & 15));
        out.push(hex_digit((u >> 8) & 15));
        out.push(hex_digit((u >> 4) & 15));
        out.push(hex_digit((u >> 0) & 15));
    }
    assert(final(out)@ =~= old(out)@ + enc_char(c));
}

fn slug_of(w: &[char]) -> (r: Vec<char>)
    ensures
        r@ == slug(w@),
{
    let mut out: Vec<char> = Vec::new();
    let mut i: usize = 0;
    assert(w@.take(0) =~= Seq::<char>::empty());
    while i < w.len()
        invariant
            i <= w@.len(),
            out@ == slug(w@.take(i as int)),
        decreases w@.len() - i,
    {
        proof {
            lemma_slug_push(w@.take(i as int), w@[i as int]);
            assert(w@.take(i as int).push(w@[i as int]) =~= w@.take(i + 1));
        }
        push_enc(&mut out, w[i]);
        i = i + 1;
    }
    assert(w@.take(i as int) =~= w@);
    out
}

/// The directory of workspace `ws`'s agent (its socket, pid file,
/// conversation and log), under the home directory.
pub open spec fn workspace_dir(home: Seq<char>, ws: Seq<char>) -> Seq<char> {
    join_path(data_dir(home), slug(ws))
}

fn workspace_dir_of(home: &str, ws: &str) -> (r: Vec<char>)
    ensures
        r@ == workspace_dir(home@, ws@),
{
    let d = data_dir_of(home);
    let s = slug_of(chars_of(ws).as_slice());
    join(d.as_slice(), s.as_slice())
}

/// The agent's socket for workspace `ws`, under the home directory.
pub fn socket_path(home: &str, ws: &str) -> (r: String)
    ensures
        r@ == join_path(workspace_dir(home@, ws@), "agent.sock"@),
{
    let d = workspace_dir_of(home, ws);
    string_of(join(d.as_slice(), chars_of("agent.sock").as_slice()).as_slice())
}

/// The agent's pid file for workspace `ws`, under the home directory.
pub fn pid_path(home: &str, ws: &str) -> (r: String)
    ensures
        r@ == join_path(workspace_dir(home@, ws@), "agent.pid"@),
{
    let d = workspace_dir_of(home, ws);
    string_of(join(d.as_slice(), chars_of("agent.pid").as_slice()).as_slice())
}

/// The saved conversation of workspace `ws`, under the home directory.
pub fn session_path(home: &str, ws: &str) -> (r: String)
    ensures
        r@ == join_path(workspace_dir(home@, ws@), "session.json"@),
{
    let d = workspace_dir_of(home, ws);
    string_of(join(d.as_slice(), chars_of("session.json").as_slice()).as_slice())
}

/// The log of workspace `ws`'s agent, under the home directory.
pub fn log_path(home: &str, ws: &str) -> (r: String)
    ensures
        r@ == join_path(workspace_dir(home@, ws@), "agent.log"@),
{
    let d = workspace_dir_of(home, ws);
    string_of(join(d.as_slice(), chars_of("agent.log").as_slice()).as_slice())
}

/// The agent's directory for workspace `ws`, under the home directory.
pub fn workspace_path(home: &str, ws: &str) -> (r: String)
    ensures
        r@ == workspace_dir(home@, ws@),
{
    let d = workspace_dir_of(home, ws);
    string_of(d.as_slice())
}

/// One message of a conversation.
#[derive(Debug, Clone)]
pub struct Msg {
    pub role: String,
    pub content: String,
}

/// A conversation bound to a workspace.
#[derive(Debug, Clone)]
pub struct Session {
    pub workspace: String,
    pub messages: Vec<Msg>,
}

/// Model of a message: role and content.
pub open spec fn msg_view(m: Msg) -> (Seq<char>, Seq<char>) {
    (m.role@, m.content@)
}

pub open spec fn msgs_view(ms: Seq<Msg>) -> Seq<(Seq<char>, Seq<char>)> {
    Seq::new(ms.len(), |i: int| msg_view(ms[i]))
}

/// What an `ask` request with `text` is answered before the model runs: an
/// error for a question that is blank once trimmed, else the conversation
/// grows by the user's (trimmed) message.
pub open spec fn ask_begin_spec(ms: Seq<(Seq<char>, Seq<char>)>, text: Seq<char>) -> Option<
    Seq<(Seq<char>, Seq<char>)>,
> {
    if trim(text).len() == 0 {
        None
    } else {
        Some(ms.push(("user"@, trim(text))))
    }
}

impl Session {
    /// Start answering `text`: false (nothing changed) for a blank
    /// question, else the user's trimmed message is appended.
    pub fn ask_begin(&mut self, text: &str) -> (ok: bool)
        ensures
            final(self).workspace == old(self).workspace,
            ok == (ask_begin_spec(msgs_view(old(self).messages@), text@) is Some),
            ok ==> msgs_view(final(self).messages@) == ask_begin_spec(
                msgs_view(old(self).messages@),
                text@,
            )->0,
            !ok ==> final(self).messages@ == old(self).messages@,
    {
        let t = trim_vec(chars_of(text).as_slice());
        if t.len() == 0 {
            return false;
        }
        let m = Msg { role: string_of(chars_of("user").as_slice()), content: string_of(t.as_slice()) };
        self.messages.push(m);
        assert(msgs_view(self.messages@) =~= msgs_view(old(self).messages@).push(
            ("user"@, trim(text@)),
        ));
        true
    }

    /// Finish an answer: the model's full reply is appended as the
    /// assistant's message; on failure the user's message is taken back,
    /// and the error is returned.
    pub fn ask_end(&mut self, result: Result<String, String>) -> (err: Option<String>)
        requires
            old(self).messages@.len() > 0,
        ensures
            final(self).workspace == old(self).workspace,
            match result {
                Ok(full) => err is None && msgs_view(final(self).messages@) == msgs_view(
                    old(self).messages@,
                ).push(("assistant"@, full@)),
                Err(e) => err == Some(e) && final(self).messages@ == old(self).messages@.drop_last(),
            },
    {
        match result {
            Ok(full) => {
                let ghost fv = full@;
                let m = Msg { role: string_of(chars_of("assistant").as_slice()), content: full };
                self.messages.push(m);
                assert(msgs_view(self.messages@) =~= msgs_view(old(self).messages@).push(
                    ("assistant"@, fv),
                ));
                None
            },
            Err(e) => {
                let _ = self.messages.pop();
                Some(e)
            },
        }
    }
}

/// The placeholder model's reply: it echoes the last message.
pub open spec fn stub_reply_spec(ms: Seq<(Seq<char>, Seq<char>)>) -> Seq<char> {
    "[stub] kamu bilang: "@ + (if ms.len() > 0 {
        ms.last().1
    } else {
        Seq::empty()
    })
}

pub fn stub_reply(history: &[Msg]) -> (r: String)
    ensures
        r@ == stub_reply_spec(msgs_view(history@)),
{
    let mut v = chars_of("[stub] kamu bilang: ");
    if history.len() > 0 {
        let last = chars_of(history[history.len() - 1].content.as_str());
        push_all(&mut v, last.as_slice());
    }
    string_of(v.as_slice())
}

/// A request line read as JSON: `None` when it is not JSON; else the
/// string values of its `cmd` and `text` fields (`None` where a field is
/// missing or not a string). A function of the line alone.
pub uninterp spec fn json_request(line: Seq<char>) -> Option<(Option<Seq<char>>, Option<Seq<char>>)>;

/// Calls `serde_json::from_str::<serde_json::Value>` on the line, then
/// reads `value["cmd"].as_str()` and `value["text"].as_str()`.
#[verifier::external_body]
fn parse_json_request(line: &str) -> (r: Option<(Option<String>, Option<String>)>)
    ensures
        match r {
            Some((c, t)) => json_request(line@) == Some((opt_string(c), opt_string(t))),
            None => json_request(line@) is None,
        },
{
    match serde_json::from_str::<serde_json::Value>(line) {
        Ok(v) => Some((v["cmd"].as_str().map(String::from), v["text"].as_str().map(String::from))),
        Err(_) => None,
    }
}

/// A request to the agent server.
pub enum Request {
    Ping,
    Reset,
    /// A question (as sent; trimming is part of answering it).
    Ask(String),
    /// A line that is not JSON.
    Bad,
    /// JSON without a known `cmd`.
    Unknown,
}

pub enum RequestView {
    Ping,
    Reset,
    Ask(Seq<char>),
    Bad,
    Unknown,
}

pub open spec fn request_view(r: Request) -> RequestView {
    match r {
        Request::Ping => RequestView::Ping,
        Request::Reset => RequestView::Reset,
        Request::Ask(t) => RequestView::Ask(t@),
        Request::Bad => RequestView::Bad,
        Request::Unknown => RequestView::Unknown,
    }
}

/// What a parsed line asks for: by `cmd`, `ping`, `reset` or `ask` (whose
/// question is `text`, empty when missing).
pub open spec fn request_spec(p: Option<(Option<Seq<char>>, Option<Seq<char>>)>) -> RequestView {
    match p {
        None => RequestView::Bad,
        Some((c, t)) => if c == Some("ping"@) {
            RequestView::Ping
        } else if c == Some("reset"@) {
            RequestView::Reset
        } else if c == Some("ask"@) {
            RequestView::Ask(
                match t {
                    Some(x) => x,
                    None => Seq::empty(),
                },
            )
        } else {
            RequestView::Unknown
        },
    }
}

fn is_cmd(c: &Option<String>, name: &str) -> (b: bool)
    ensures
        b == (opt_string(*c) == Some(name@)),
{
    match c {
        Some(x) => crate::render::eq_chars(chars_of(x.as_str()).as_slice(), chars_of(name).as_slice()),
        None => false,
    }
}

/// The request a line of the protocol holds.
pub fn parse_request(line: &str) -> (r: Request)
    ensures
        request_view(r) == request_spec(json_request(line@)),
{
    match parse_json_request(line) {
        None => Request::Bad,
        Some((c, t)) => {
            if is_cmd(&c, "ping") {
                Request::Ping
            } else if is_cmd(&c, "reset") {
                Request::Reset
            } else if is_cmd(&c, "ask") {
                match t {
                    Some(x) => Request::Ask(x),
                    None => {
                        let e: Vec<char> = Vec::new();
                        let q = string_of(e.as_slice());
                        assert(q@ =~= Seq::<char>::empty());
                        Request::Ask(q)
                    },
                }
            } else {
                Request::Unknown
            }
        },
    }
}

/// A reply line of the protocol.
pub enum Reply {
    Pong,
    /// An accepted question: the workspace and the conversation's length.
    Meta { workspace: String, history: usize },
    /// A piece of the answer.
    Delta(String),
    /// The end of a request: its error, if any; whether it was a reset.
    Done { error: Option<String>, reset: bool },
}

pub enum ReplyView {
    Pong,
    Meta { workspace: Seq<char>, history: nat },
    Delta(Seq<char>),
    Done { error: Option<Seq<char>>, reset: bool },
}

pub open spec fn reply_view(r: Reply) -> ReplyView {
    match r {
        Reply::Pong => ReplyView::Pong,
        Reply::Meta { workspace, history } => ReplyView::Meta { workspace: workspace@, history: history as nat },
        Reply::Delta(t) => ReplyView::Delta(t@),
        Reply::Done { error, reset } => ReplyView::Done { error: opt_string(error), reset },
    }
}

/// What the server does with a request.
pub enum Step {
    /// Send the reply, then read the next request.
    Answer(Reply),
    /// Send the reply and close the connection.
    Close(Reply),
    /// Remove the saved conversation, then send the reply.
    Reset(Reply),
    /// Load the conversation and answer the question (see [`on_ask`]).
    Ask(String),
}

pub enum StepView {
    Answer(ReplyView),
    Close(ReplyView),
    Reset(ReplyView),
    Ask(Seq<char>),
}

pub open spec fn step_view(s: Step) -> StepView {
    match s {
        Step::Answer(r) => StepView::Answer(reply_view(r)),
        Step::Close(r) => StepView::Close(reply_view(r)),
        Step::Reset(r) => StepView::Reset(reply_view(r)),
        Step::Ask(t) => StepView::Ask(t@),
    }
}

/// The server's step for a request: `pong` for ping; `done` with `reset`
/// after removing the conversation; the question for ask; `done` with
/// error `bad request` (closing) for a line that is not JSON, and with
/// error `unknown cmd` for any other command.
pub open spec fn step_spec(r: RequestView) -> StepView {
    match r {
        RequestView::Ping => StepView::Answer(ReplyView::Pong),
        RequestView::Reset => StepView::Reset(ReplyView::Done { error: None, reset: true }),
        RequestView::Ask(t) => StepView::Ask(t),
        RequestView::Bad => StepView::Close(
            ReplyView::Done { error: Some("bad request"@), reset: false },
        ),
        RequestView::Unknown => StepView::Answer(
            ReplyView::Done { error: Some("unknown cmd"@), reset: false },
        ),
    }
}

pub fn on_request(req: Request) -> (s: Step)
    ensures
        step_view(s) == step_spec(request_view(req)),
{
    match req {
        Request::Ping => Step::Answer(Reply::Pong),
        Request::Reset => Step::Reset(Reply::Done { error: None, reset: true }),
        Request::Ask(t) => Step::Ask(t),
        Request::Bad => Step::Close(Reply::Done { error: Some(text("bad request")), reset: false }),
        Request::Unknown => Step::Answer(
            Reply::Done { error: Some(text("unknown cmd")), reset: false },
        ),
    }
}

/// A question against the loaded conversation: a blank one is answered
/// `done` with error `empty` and changes nothing; else the user's message
/// is added and `meta` (workspace, new length) is sent before the model
/// runs (`true`).
pub fn on_ask(sess: &mut Session, question: &str) -> (r: (Reply, bool))
    ensures
        final(sess).workspace == old(sess).workspace,
        r.1 == (ask_begin_spec(msgs_view(old(sess).messages@), question@) is Some),
        !r.1 ==> final(sess).messages@ == old(sess).messages@ && reply_view(r.0) == (
        ReplyView::Done { error: Some("empty"@), reset: false }),
        r.1 ==> msgs_view(final(sess).messages@) == ask_begin_spec(
            msgs_view(old(sess).messages@),
            question@,
        )->0 && reply_view(r.0) == (ReplyView::Meta {
            workspace: old(sess).workspace@,
            history: final(sess).messages@.len(),
        }),
{
    if !sess.ask_begin(question) {
        return (Reply::Done { error: Some(text("empty")), reset: false }, false);
    }
    let w = string_of(chars_of(sess.workspace.as_str()).as_slice());
    (Reply::Meta { workspace: w, history: sess.messages.len() }, true)
}

/// The model's outcome for an accepted question: the answer is added (or
/// the question taken back, see [`Session::ask_end`]), and `done` carries
/// the error, if any.
pub fn on_answer(sess: &mut Session, result: Result<String, String>) -> (r: Reply)
    requires
        old(sess).messages@.len() > 0,
    ensures
        final(sess).workspace == old(sess).workspace,
        match result {
            Ok(full) => msgs_view(final(sess).messages@) == msgs_view(old(sess).messages@).push(
                ("assistant"@, full@),
            ) && reply_view(r) == (ReplyView::Done { error: None, reset: false }),
            Err(e) => final(sess).messages@ == old(sess).messages@.drop_last() && reply_view(r) == (
            ReplyView::Done { error: Some(e@), reset: false }),
        },
{
    let err = sess.ask_end(result);
    Reply::Done { error: err, reset: false }
}

} // verus!
