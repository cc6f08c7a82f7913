//! The control-plane wire protocol: one text line per message.
//!
//! A line is a kind word (`HELLO`, `START`, `PROGRESS`, `STOP`) followed by
//! `key=value` words in any order. Unknown keys are ignored, the last of a
//! repeated key wins, and a number that does not parse is treated as absent.
use vstd::prelude::*;
use vstd::string::*;
use crate::text::{
    clean_words, decimal, field, is_space, join_words, lemma_decimal, lemma_field_clean,
    lemma_join_push, lemma_parse_decimal, lemma_words_clean, lemma_words_of_join, no_space,
    parse_u32, parse_u64, words,
};

verus! {

/// The kind word of a message.
#[derive(Clone, Copy, Debug, PartialEq, Eq, Structural)]
pub enum MessageType {
    Hello,
    Start,
    Progress,
    Stop,
}

/// One decoded control-plane message; each kind carries only its own fields.
#[derive(Clone, Debug)]
pub enum WorkerMessage {
    Hello { host: Option<String>, pid: Option<u32> },
    Start { tool: String, directory: Option<String> },
    Progress {
        tool: String,
        directory: Option<String>,
        message: Option<String>,
        bytes: Option<u64>,
    },
    Stop {
        tool: String,
        directory: Option<String>,
        status: Option<String>,
        bytes: Option<u64>,
        message: Option<String>,
    },
}

/// The mathematical value of a message: its text fields as character sequences.
pub enum MessageView {
    Hello { host: Option<Seq<char>>, pid: Option<u32> },
    Start { tool: Seq<char>, directory: Option<Seq<char>> },
    Progress {
        tool: Seq<char>,
        directory: Option<Seq<char>>,
        message: Option<Seq<char>>,
        bytes: Option<u64>,
    },
    Stop {
        tool: Seq<char>,
        directory: Option<Seq<char>>,
        status: Option<Seq<char>>,
        bytes: Option<u64>,
        message: Option<Seq<char>>,
    },
}

/// Why a line was not a message.
#[derive(Clone, Copy, Debug, PartialEq, Eq, Structural)]
pub enum ProtocolErrorKind {
    /// The line holds no word.
    EmptyLine,
    /// The first word is not one of the four kinds.
    UnknownKind,
}

/// A line that could not be decoded, kept whole for the log.
#[derive(Debug)]
pub struct ProtocolError {
    pub kind: ProtocolErrorKind,
    pub line: String,
}

pub open spec fn opt_view(o: Option<String>) -> Option<Seq<char>> {
    match o {
        Some(s) => Some(s@),
        None => None,
    }
}

impl View for WorkerMessage {
    type V = MessageView;

    open spec fn view(&self) -> MessageView {
        match self {
            WorkerMessage::Hello { host, pid } => MessageView::Hello { host: opt_view(*host), pid: *pid },
            WorkerMessage::Start { tool, directory } => MessageView::Start {
                tool: tool@,
                directory: opt_view(*directory),
            },
            WorkerMessage::Progress { tool, directory, message, bytes } => MessageView::Progress {
                tool: tool@,
                directory: opt_view(*directory),
                message: opt_view(*message),
                bytes: *bytes,
            },
            WorkerMessage::Stop { tool, directory, status, bytes, message } => MessageView::Stop {
                tool: tool@,
                directory: opt_view(*directory),
                status: opt_view(*status),
                bytes: *bytes,
                message: opt_view(*message),
            },
        }
    }
}

/// The kind of a message.
pub open spec fn kind_of(m: MessageView) -> MessageType {
    match m {
        MessageView::Hello { .. } => MessageType::Hello,
        MessageView::Start { .. } => MessageType::Start,
        MessageView::Progress { .. } => MessageType::Progress,
        MessageView::Stop { .. } => MessageType::Stop,
    }
}

impl WorkerMessage {
    /// The kind of this message.
    pub fn message_type(&self) -> (r: MessageType)
        ensures
            r == kind_of(self@),
    {
        match self {
            WorkerMessage::Hello { .. } => MessageType::Hello,
            WorkerMessage::Start { .. } => MessageType::Start,
            WorkerMessage::Progress { .. } => MessageType::Progress,
            WorkerMessage::Stop { .. } => MessageType::Stop,
        }
    }
}

// ---- words of the protocol ----

pub open spec fn kind_hello() -> Seq<char> {
    seq!['H', 'E', 'L', 'L', 'O']
}

pub open spec fn kind_start() -> Seq<char> {
    seq!['S', 'T', 'A', 'R', 'T']
}

pub open spec fn kind_progress() -> Seq<char> {
    seq!['P', 'R', 'O', 'G', 'R', 'E', 'S', 'S']
}

pub open spec fn kind_stop() -> Seq<char> {
    seq!['S', 'T', 'O', 'P']
}

pub open spec fn key_host() -> Seq<char> {
    seq!['h', 'o', 's', 't', '=']
}

pub open spec fn key_pid() -> Seq<char> {
    seq!['p', 'i', 'd', '=']
}

pub open spec fn key_tool() -> Seq<char> {
    seq!['t', 'o', 'o', 'l', '=']
}

pub open spec fn key_dir() -> Seq<char> {
    seq!['d', 'i', 'r', '=']
}

pub open spec fn key_msg() -> Seq<char> {
    seq!['m', 's', 'g', '=']
}

pub open spec fn key_status() -> Seq<char> {
    seq!['s', 't', 'a', 't', 'u', 's', '=']
}

pub open spec fn key_bytes() -> Seq<char> {
    seq!['b', 'y', 't', 'e', 's', '=']
}

/// The text that stands for a tool or a directory that a message does not name.
pub open spec fn unknown_text() -> Seq<char> {
    seq!['u', 'n', 'k', 'n', 'o', 'w', 'n']
}

pub open spec fn is_kind_word(w: Seq<char>) -> bool {
    w == kind_hello() || w == kind_start() || w == kind_progress() || w == kind_stop()
}

pub open spec fn opt_u32(v: Option<Seq<char>>) -> Option<u32> {
    match v {
        Some(s) => parse_u32(s),
        None => None,
    }
}

pub open spec fn opt_u64(v: Option<Seq<char>>) -> Option<u64> {
    match v {
        Some(s) => parse_u64(s),
        None => None,
    }
}

pub open spec fn or_unknown(v: Option<Seq<char>>) -> Seq<char> {
    match v {
        Some(s) => s,
        None => unknown_text(),
    }
}

/// The message that the words after the kind word describe.
pub open spec fn decode_words(kind: Seq<char>, rest: Seq<Seq<char>>) -> Option<MessageView> {
    let tool = or_unknown(field(rest, key_tool()));
    let directory = field(rest, key_dir());
    if kind == kind_hello() {
        Some(MessageView::Hello { host: field(rest, key_host()), pid: opt_u32(field(rest, key_pid())) })
    } else if kind == kind_start() {
        Some(MessageView::Start { tool, directory })
    } else if kind == kind_progress() {
        Some(
            MessageView::Progress {
                tool,
                directory,
                message: field(rest, key_msg()),
                bytes: opt_u64(field(rest, key_bytes())),
            },
        )
    } else if kind == kind_stop() {
        Some(
            MessageView::Stop {
                tool,
                directory,
                status: field(rest, key_status()),
                bytes: opt_u64(field(rest, key_bytes())),
                message: field(rest, key_msg()),
            },
        )
    } else {
        None
    }
}

/// The message a line holds, if any: none for a line without words, or
/// whose first word is not a kind.
pub open spec fn decode(line: Seq<char>) -> Option<MessageView> {
    let ws = words(line);
    if ws.len() == 0 {
        None
    } else {
        decode_words(ws[0], ws.drop_first())
    }
}

/// The word `key=value`, where there is a value.
pub open spec fn opt_word(key: Seq<char>, v: Option<Seq<char>>) -> Seq<Seq<char>> {
    match v {
        Some(x) => seq![key + x],
        None => seq![],
    }
}

pub open spec fn opt_decimal_u32(v: Option<u32>) -> Option<Seq<char>> {
    match v {
        Some(n) => Some(decimal(n as nat)),
        None => None,
    }
}

pub open spec fn opt_decimal_u64(v: Option<u64>) -> Option<Seq<char>> {
    match v {
        Some(n) => Some(decimal(n as nat)),
        None => None,
    }
}

/// The words written for a message: the kind, then each present field.
pub open spec fn encode_words(m: MessageView) -> Seq<Seq<char>> {
    match m {
        MessageView::Hello { host, pid } => seq![kind_hello()] + opt_word(key_host(), host)
            + opt_word(key_pid(), opt_decimal_u32(pid)),
        MessageView::Start { tool, directory } => seq![kind_start()] + opt_word(
            key_tool(),
            Some(tool),
        ) + opt_word(key_dir(), directory),
        MessageView::Progress { tool, directory, message, bytes } => seq![kind_progress()]
            + opt_word(key_tool(), Some(tool)) + opt_word(key_dir(), directory) + opt_word(
            key_msg(),
            message,
        ) + opt_word(key_bytes(), opt_decimal_u64(bytes)),
        MessageView::Stop { tool, directory, status, bytes, message } => seq![kind_stop()]
            + opt_word(key_tool(), Some(tool)) + opt_word(key_dir(), directory) + opt_word(
            key_status(),
            status,
        ) + opt_word(key_bytes(), opt_decimal_u64(bytes)) + opt_word(key_msg(), message),
    }
}

/// The line written for a message: its words joined by single spaces.
pub open spec fn encode(m: MessageView) -> Seq<char> {
    join_words(encode_words(m))
}

pub open spec fn opt_no_space(v: Option<Seq<char>>) -> bool {
    match v {
        Some(x) => no_space(x),
        None => true,
    }
}

/// A message whose text fields can each stand in one word.
pub open spec fn writable(m: MessageView) -> bool {
    match m {
        MessageView::Hello { host, pid } => opt_no_space(host),
        MessageView::Start { tool, directory } => no_space(tool) && opt_no_space(directory),
        MessageView::Progress { tool, directory, message, bytes } => no_space(tool)
            && opt_no_space(directory) && opt_no_space(message),
        MessageView::Stop { tool, directory, status, bytes, message } => no_space(tool)
            && opt_no_space(directory) && opt_no_space(status) && opt_no_space(message),
    }
}

// ---- trusted text operations of std ----

/// Relies on `str::split_whitespace`: the maximal runs of non-whitespace characters, in order.
#[verifier::external_body]
fn split_words(s: &str) -> (r: Vec<String>)
    ensures
        r@.len() == words(s@).len(),
        forall|i: int| 0 <= i < r@.len() ==> (#[trigger] r@[i])@ == words(s@)[i],
{
    s.split_whitespace().map(|w| w.to_string()).collect()
}

/// Relies on `str::strip_prefix`: what follows `prefix` where `s` starts with it.
#[verifier::external_body]
pub(crate) fn strip_key(s: &str, prefix: &str) -> (r: Option<String>)
    ensures
        match r {
            Some(v) => prefix@.is_prefix_of(s@) && v@ == s@.subrange(
                prefix@.len() as int,
                s@.len() as int,
            ),
            None => !prefix@.is_prefix_of(s@),
        },
{
    s.strip_prefix(prefix).map(|v| v.to_string())
}

/// Relies on `str::parse::<u32>`: an optional `+` and decimal digits of a value that fits.
#[verifier::external_body]
fn parse_u32_text(s: &str) -> (r: Option<u32>)
    ensures
        r == parse_u32(s@),
{
    s.parse::<u32>().ok()
}

/// Relies on `str::parse::<u64>`: an optional `+` and decimal digits of a value that fits.
#[verifier::external_body]
fn parse_u64_text(s: &str) -> (r: Option<u64>)
    ensures
        r == parse_u64(s@),
{
    s.parse::<u64>().ok()
}

/// Relies on `u32::to_string`: the decimal form without leading zeros.
#[verifier::external_body]
fn u32_text(n: u32) -> (r: String)
    ensures
        r@ == decimal(n as nat),
{
    n.to_string()
}

/// Relies on `u64::to_string`: the decimal form without leading zeros.
#[verifier::external_body]
fn u64_text(n: u64) -> (r: String)
    ensures
        r@ == decimal(n as nat),
{
    n.to_string()
}

// ---- decoding ----

/// Whether a word is exactly the text `lit`.
fn is_word(w: &String, lit: &str) -> (r: bool)
    ensures
        r == (w@ == lit@),
{
    *w == String::from_str(lit)
}

/// Keeps the value of `w` for `key` where `w` starts with it.
fn take_field(acc: &mut Option<String>, w: &String, key: &str, Ghost(prev): Ghost<Seq<Seq<char>>>)
    requires
        opt_view(*old(acc)) == field(prev, key@),
    ensures
        opt_view(*final(acc)) == field(prev.push(w@), key@),
{
    match strip_key(w.as_str(), key) {
        Some(v) => {
            *acc = Some(v);
        },
        None => {},
    }
    assert(prev.push(w@).drop_last() =~= prev);
}

fn parse_number_u32(v: &Option<String>) -> (r: Option<u32>)
    ensures
        r == opt_u32(opt_view(*v)),
{
    match v {
        Some(t) => parse_u32_text(t.as_str()),
        None => None,
    }
}

fn parse_number_u64(v: &Option<String>) -> (r: Option<u64>)
    ensures
        r == opt_u64(opt_view(*v)),
{
    match v {
        Some(t) => parse_u64_text(t.as_str()),
        None => None,
    }
}

proof fn reveal_protocol_words()
    ensures
        "HELLO"@ == kind_hello(),
        "START"@ == kind_start(),
        "PROGRESS"@ == kind_progress(),
        "STOP"@ == kind_stop(),
        "host="@ == key_host(),
        "pid="@ == key_pid(),
        "tool="@ == key_tool(),
        "dir="@ == key_dir(),
        "msg="@ == key_msg(),
        "status="@ == key_status(),
        "bytes="@ == key_bytes(),
        "unknown"@ == unknown_text(),
        " "@ == seq![' '],
{
    reveal_strlit("HELLO");
    reveal_strlit("START");
    reveal_strlit("PROGRESS");
    reveal_strlit("STOP");
    reveal_strlit("host=");
    reveal_strlit("pid=");
    reveal_strlit("tool=");
    reveal_strlit("dir=");
    reveal_strlit("msg=");
    reveal_strlit("status=");
    reveal_strlit("bytes=");
    reveal_strlit("unknown");
    reveal_strlit(" ");
    assert("HELLO"@ =~= kind_hello());
    assert("START"@ =~= kind_start());
    assert("PROGRESS"@ =~= kind_progress());
    assert("STOP"@ =~= kind_stop());
    assert("host="@ =~= key_host());
    assert("pid="@ =~= key_pid());
    assert("tool="@ =~= key_tool());
    assert("dir="@ =~= key_dir());
    assert("msg="@ =~= key_msg());
    assert("status="@ =~= key_status());
    assert("bytes="@ =~= key_bytes());
    assert("unknown"@ =~= unknown_text());
    assert(" "@ =~= seq![' ']);
}

/// Decodes one protocol line.
///
/// Fails exactly on a line without words (`EmptyLine`) and on a line whose
/// first word is not a kind (`UnknownKind`); the error keeps the line.
pub fn parse_worker_message(line: &str) -> (r: Result<WorkerMessage, ProtocolError>)
    ensures
        match r {
            Ok(m) => decode(line@) == Some(m@),
            Err(e) => {
                &&& decode(line@) is None
                &&& e.line@ == line@
                &&& (e.kind == ProtocolErrorKind::EmptyLine <==> words(line@).len() == 0)
            },
        },
{
    let ws = split_words(line);
    if ws.len() == 0 {
        return Err(ProtocolError { kind: ProtocolErrorKind::EmptyLine, line: String::from_str(line) });
    }
    let ghost all = words(line@);
    let ghost rest = all.drop_first();
    let mut host: Option<String> = None;
    let mut pid: Option<String> = None;
    let mut tool: Option<String> = None;
    let mut directory: Option<String> = None;
    let mut message: Option<String> = None;
    let mut status: Option<String> = None;
    let mut bytes: Option<String> = None;
    let mut i: usize = 1;
    assert(rest.subrange(0, 0) =~= Seq::<Seq<char>>::empty());
    while i < ws.len()
        invariant
            1 <= i <= ws.len(),
            ws@.len() == all.len(),
            all == words(line@),
            rest == all.drop_first(),
            forall|j: int| 0 <= j < ws@.len() ==> (#[trigger] ws@[j])@ == all[j],
            opt_view(host) == field(rest.subrange(0, i - 1), "host="@),
            opt_view(pid) == field(rest.subrange(0, i - 1), "pid="@),
            opt_view(tool) == field(rest.subrange(0, i - 1), "tool="@),
            opt_view(directory) == field(rest.subrange(0, i - 1), "dir="@),
            opt_view(message) == field(rest.subrange(0, i - 1), "msg="@),
            opt_view(status) == field(rest.subrange(0, i - 1), "status="@),
            opt_view(bytes) == field(rest.subrange(0, i - 1), "bytes="@),
        decreases ws.len() - i,
    {
        let w = &ws[i];
        let ghost prev = rest.subrange(0, i - 1);
        assert(rest.subrange(0, i as int) =~= prev.push(w@));
        take_field(&mut host, w, "host=", Ghost(prev));
        take_field(&mut pid, w, "pid=", Ghost(prev));
        take_field(&mut tool, w, "tool=", Ghost(prev));
        take_field(&mut directory, w, "dir=", Ghost(prev));
        take_field(&mut message, w, "msg=", Ghost(prev));
        take_field(&mut status, w, "status=", Ghost(prev));
        take_field(&mut bytes, w, "bytes=", Ghost(prev));
        i = i + 1;
    }
    assert(rest.subrange(0, i - 1) =~= rest);
    proof {
        reveal_protocol_words();
    }
    let tool = match tool {
        Some(t) => t,
        None => String::from_str("unknown"),
    };
    let kind = &ws[0];
    if is_word(kind, "HELLO") {
        Ok(WorkerMessage::Hello { host, pid: parse_number_u32(&pid) })
    } else if is_word(kind, "START") {
        Ok(WorkerMessage::Start { tool, directory })
    } else if is_word(kind, "PROGRESS") {
        let bytes = parse_number_u64(&bytes);
        Ok(WorkerMessage::Progress { tool, directory, message, bytes })
    } else if is_word(kind, "STOP") {
        let bytes = parse_number_u64(&bytes);
        Ok(WorkerMessage::Stop { tool, directory, status, bytes, message })
    } else {
        Err(ProtocolError { kind: ProtocolErrorKind::UnknownKind, line: String::from_str(line) })
    }
}

// ---- encoding ----

fn push_word(s: &mut String, key: &str, value: &str, Ghost(ws): Ghost<Seq<Seq<char>>>)
    requires
        ws.len() > 0,
        old(s)@ == join_words(ws),
    ensures
        final(s)@ == join_words(ws + opt_word(key@, Some(value@))),
{
    proof {
        reveal_protocol_words();
        lemma_join_push(ws, key@ + value@);
        assert(ws + opt_word(key@, Some(value@)) =~= ws.push(key@ + value@));
    }
    s.append(" ");
    s.append(key);
    s.append(value);
    assert(s@ =~= join_words(ws) + seq![' '] + (key@ + value@));
}

fn push_opt(s: &mut String, key: &str, value: &Option<String>, Ghost(ws): Ghost<Seq<Seq<char>>>)
    requires
        ws.len() > 0,
        old(s)@ == join_words(ws),
    ensures
        final(s)@ == join_words(ws + opt_word(key@, opt_view(*value))),
{
    match value {
        Some(v) => push_word(s, key, v.as_str(), Ghost(ws)),
        None => {
            assert(ws + opt_word(key@, opt_view(*value)) =~= ws);
        },
    }
}

/// Writes a message as one protocol line, the mirror of `parse_worker_message`.
pub fn format_worker_message(m: &WorkerMessage) -> (r: String)
    ensures
        r@ == encode(m@),
{
    proof {
        reveal_protocol_words();
    }
    match m {
        WorkerMessage::Hello { host, pid } => {
            let mut s = String::from_str("HELLO");
            let ghost w0 = seq![kind_hello()];
            assert(s@ == join_words(w0));
            push_opt(&mut s, "host=", host, Ghost(w0));
            let ghost w1 = w0 + opt_word(key_host(), opt_view(*host));
            let p = match pid {
                Some(n) => Some(u32_text(*n)),
                None => None,
            };
            assert(opt_view(p) == opt_decimal_u32(*pid));
            push_opt(&mut s, "pid=", &p, Ghost(w1));
            s
        },
        WorkerMessage::Start { tool, directory } => {
            let mut s = String::from_str("START");
            let ghost w0 = seq![kind_start()];
            assert(s@ == join_words(w0));
            push_word(&mut s, "tool=", tool.as_str(), Ghost(w0));
            let ghost w1 = w0 + opt_word(key_tool(), Some(tool@));
            push_opt(&mut s, "dir=", directory, Ghost(w1));
            s
        },
        WorkerMessage::Progress { tool, directory, message, bytes } => {
            let mut s = String::from_str("PROGRESS");
            let ghost w0 = seq![kind_progress()];
            assert(s@ == join_words(w0));
            push_word(&mut s, "tool=", tool.as_str(), Ghost(w0));
            let ghost w1 = w0 + opt_word(key_tool(), Some(tool@));
            push_opt(&mut s, "dir=", directory, Ghost(w1));
            let ghost w2 = w1 + opt_word(key_dir(), opt_view(*directory));
            push_opt(&mut s, "msg=", message, Ghost(w2));
            let ghost w3 = w2 + opt_word(key_msg(), opt_view(*message));
            let b = match bytes {
                Some(n) => Some(u64_text(*n)),
                None => None,
            };
            assert(opt_view(b) == opt_decimal_u64(*bytes));
            push_opt(&mut s, "bytes=", &b, Ghost(w3));
            s
        },
        WorkerMessage::Stop { tool, directory, status, bytes, message } => {
            let mut s = String::from_str("STOP");
            let ghost w0 = seq![kind_stop()];
            assert(s@ == join_words(w0));
            push_word(&mut s, "tool=", tool.as_str(), Ghost(w0));
            let ghost w1 = w0 + opt_word(key_tool(), Some(tool@));
            push_opt(&mut s, "dir=", directory, Ghost(w1));
            let ghost w2 = w1 + opt_word(key_dir(), opt_view(*directory));
            push_opt(&mut s, "status=", status, Ghost(w2));
            let ghost w3 = w2 + opt_word(key_status(), opt_view(*status));
            let b = match bytes {
                Some(n) => Some(u64_text(*n)),
                None => None,
            };
            assert(opt_view(b) == opt_decimal_u64(*bytes));
            push_opt(&mut s, "bytes=", &b, Ghost(w3));
            let ghost w4 = w3 + opt_word(key_bytes(), opt_view(b));
            push_opt(&mut s, "msg=", message, Ghost(w4));
            s
        },
    }
}

// ---- laws ----

/// The field of a list that ends with an optional `key2=value` word.
proof fn lemma_field_opt_word(
    ws: Seq<Seq<char>>,
    key2: Seq<char>,
    v: Option<Seq<char>>,
    key: Seq<char>,
)
    requires
        key.len() > 0,
        key2.len() > 0,
        key2 == key || key2[0] != key[0],
    ensures
        field(ws + opt_word(key2, v), key) == (if key2 == key && v is Some {
            v
        } else {
            field(ws, key)
        }),
{
    match v {
        Some(x) => {
            let w = key2 + x;
            let all = ws + opt_word(key2, v);
            assert(all.last() == w);
            assert(all.drop_last() =~= ws);
            if key2 == key {
                assert(key.is_prefix_of(w)) by {
                    assert(w.subrange(0, key.len() as int) =~= key);
                }
                assert(w.subrange(key.len() as int, w.len() as int) =~= x);
            } else {
                if key.is_prefix_of(w) {
                    assert(w.subrange(0, key.len() as int)[0] == key[0]);
                }
            }
        },
        None => {
            assert(ws + opt_word(key2, v) =~= ws);
        },
    }
}

proof fn lemma_clean_push_opt(ws: Seq<Seq<char>>, key: Seq<char>, v: Option<Seq<char>>)
    requires
        clean_words(ws),
        key.len() > 0,
        no_space(key),
        opt_no_space(v),
    ensures
        clean_words(ws + opt_word(key, v)),
{
    let all = ws + opt_word(key, v);
    assert forall|i: int| 0 <= i < all.len() implies (#[trigger] all[i]).len() > 0 && no_space(
        all[i],
    ) by {
        if i < ws.len() {
            assert(all[i] == ws[i]);
        } else {
            let x = v->0;
            assert(all[i] == key + x);
            assert forall|j: int| 0 <= j < (key + x).len() implies !is_space(
                #[trigger] (key + x)[j],
            ) by {
                if j < key.len() {
                    assert((key + x)[j] == key[j]);
                } else {
                    assert((key + x)[j] == x[j - key.len()]);
                }
            }
        }
    }
}

proof fn lemma_decimal_no_space_u32(v: Option<u32>)
    ensures
        opt_no_space(opt_decimal_u32(v)),
        opt_u32(opt_decimal_u32(v)) == v,
{
    if let Some(n) = v {
        lemma_decimal(n as nat);
        lemma_parse_decimal(n as nat, u32::MAX as nat);
    }
}

proof fn lemma_decimal_no_space_u64(v: Option<u64>)
    ensures
        opt_no_space(opt_decimal_u64(v)),
        opt_u64(opt_decimal_u64(v)) == v,
{
    if let Some(n) = v {
        lemma_decimal(n as nat);
        lemma_parse_decimal(n as nat, u64::MAX as nat);
    }
}

proof fn lemma_encode_decode_hello(host: Option<Seq<char>>, pid: Option<u32>)
    requires
        writable(MessageView::Hello { host, pid }),
    ensures
        decode(encode(MessageView::Hello { host, pid })) == Some(MessageView::Hello { host, pid }),
{
    let m = MessageView::Hello { host, pid };
    let e = Seq::<Seq<char>>::empty();
    assert(field(e, key_tool()) == None::<Seq<char>>);
    assert(field(e, key_dir()) == None::<Seq<char>>);
    assert(field(e, key_host()) == None::<Seq<char>>);
    assert(field(e, key_pid()) == None::<Seq<char>>);
    assert(field(e, key_msg()) == None::<Seq<char>>);
    assert(field(e, key_status()) == None::<Seq<char>>);
    assert(field(e, key_bytes()) == None::<Seq<char>>);
    let ws = encode_words(m);
        let k = kind_hello();
        lemma_decimal_no_space_u32(pid);
        let a = e + opt_word(key_host(), host);
        let b = a + opt_word(key_pid(), opt_decimal_u32(pid));
        assert(clean_words(seq![k]));
        lemma_clean_push_opt(seq![k], key_host(), host);
        lemma_clean_push_opt(seq![k] + opt_word(key_host(), host), key_pid(), opt_decimal_u32(pid));
        lemma_words_of_join(ws);
        assert(ws.drop_first() =~= b);
        lemma_field_opt_word(e, key_host(), host, key_host());
        lemma_field_opt_word(a, key_pid(), opt_decimal_u32(pid), key_host());
        lemma_field_opt_word(e, key_host(), host, key_pid());
        lemma_field_opt_word(a, key_pid(), opt_decimal_u32(pid), key_pid());
}

proof fn lemma_encode_decode_start(tool: Seq<char>, directory: Option<Seq<char>>)
    requires
        writable(MessageView::Start { tool, directory }),
    ensures
        decode(encode(MessageView::Start { tool, directory })) == Some(MessageView::Start { tool, directory }),
{
    let m = MessageView::Start { tool, directory };
    let e = Seq::<Seq<char>>::empty();
    assert(field(e, key_tool()) == None::<Seq<char>>);
    assert(field(e, key_dir()) == None::<Seq<char>>);
    assert(field(e, key_host()) == None::<Seq<char>>);
    assert(field(e, key_pid()) == None::<Seq<char>>);
    assert(field(e, key_msg()) == None::<Seq<char>>);
    assert(field(e, key_status()) == None::<Seq<char>>);
    assert(field(e, key_bytes()) == None::<Seq<char>>);
    let ws = encode_words(m);
        let k = kind_start();
        let a = e + opt_word(key_tool(), Some(tool));
        let b = a + opt_word(key_dir(), directory);
        assert(clean_words(seq![k]));
        lemma_clean_push_opt(seq![k], key_tool(), Some(tool));
        lemma_clean_push_opt(seq![k] + opt_word(key_tool(), Some(tool)), key_dir(), directory);
        lemma_words_of_join(ws);
        assert(ws.drop_first() =~= b);
        lemma_field_opt_word(e, key_tool(), Some(tool), key_tool());
        lemma_field_opt_word(a, key_dir(), directory, key_tool());
        lemma_field_opt_word(e, key_tool(), Some(tool), key_dir());
        lemma_field_opt_word(a, key_dir(), directory, key_dir());
}

proof fn lemma_encode_decode_progress(tool: Seq<char>, directory: Option<Seq<char>>, message: Option<Seq<char>>, bytes: Option<u64>)
    requires
        writable(MessageView::Progress { tool, directory, message, bytes }),
    ensures
        decode(encode(MessageView::Progress { tool, directory, message, bytes })) == Some(MessageView::Progress { tool, directory, message, bytes }),
{
    let m = MessageView::Progress { tool, directory, message, bytes };
    let e = Seq::<Seq<char>>::empty();
    assert(field(e, key_tool()) == None::<Seq<char>>);
    assert(field(e, key_dir()) == None::<Seq<char>>);
    assert(field(e, key_host()) == None::<Seq<char>>);
    assert(field(e, key_pid()) == None::<Seq<char>>);
    assert(field(e, key_msg()) == None::<Seq<char>>);
    assert(field(e, key_status()) == None::<Seq<char>>);
    assert(field(e, key_bytes()) == None::<Seq<char>>);
    let ws = encode_words(m);
        let k = kind_progress();
        lemma_decimal_no_space_u64(bytes);
        let nb = opt_decimal_u64(bytes);
        let a = e + opt_word(key_tool(), Some(tool));
        let b = a + opt_word(key_dir(), directory);
        let c = b + opt_word(key_msg(), message);
        let d = c + opt_word(key_bytes(), nb);
        let k1 = seq![k] + opt_word(key_tool(), Some(tool));
        let k2 = k1 + opt_word(key_dir(), directory);
        let k3 = k2 + opt_word(key_msg(), message);
        assert(clean_words(seq![k]));
        lemma_clean_push_opt(seq![k], key_tool(), Some(tool));
        lemma_clean_push_opt(k1, key_dir(), directory);
        lemma_clean_push_opt(k2, key_msg(), message);
        lemma_clean_push_opt(k3, key_bytes(), nb);
        lemma_words_of_join(ws);
        assert(ws.drop_first() =~= d);
        lemma_field_opt_word(e, key_tool(), Some(tool), key_tool());
        lemma_field_opt_word(a, key_dir(), directory, key_tool());
        lemma_field_opt_word(b, key_msg(), message, key_tool());
        lemma_field_opt_word(c, key_bytes(), nb, key_tool());
        lemma_field_opt_word(e, key_tool(), Some(tool), key_dir());
        lemma_field_opt_word(a, key_dir(), directory, key_dir());
        lemma_field_opt_word(b, key_msg(), message, key_dir());
        lemma_field_opt_word(c, key_bytes(), nb, key_dir());
        lemma_field_opt_word(e, key_tool(), Some(tool), key_msg());
        lemma_field_opt_word(a, key_dir(), directory, key_msg());
        lemma_field_opt_word(b, key_msg(), message, key_msg());
        lemma_field_opt_word(c, key_bytes(), nb, key_msg());
        lemma_field_opt_word(e, key_tool(), Some(tool), key_bytes());
        lemma_field_opt_word(a, key_dir(), directory, key_bytes());
        lemma_field_opt_word(b, key_msg(), message, key_bytes());
        lemma_field_opt_word(c, key_bytes(), nb, key_bytes());
}

proof fn lemma_encode_decode_stop(tool: Seq<char>, directory: Option<Seq<char>>, status: Option<Seq<char>>, bytes: Option<u64>, message: Option<Seq<char>>)
    requires
        writable(MessageView::Stop { tool, directory, status, bytes, message }),
    ensures
        decode(encode(MessageView::Stop { tool, directory, status, bytes, message })) == Some(MessageView::Stop { tool, directory, status, bytes, message }),
{
    let m = MessageView::Stop { tool, directory, status, bytes, message };
    let e = Seq::<Seq<char>>::empty();
    assert(field(e, key_tool()) == None::<Seq<char>>);
    assert(field(e, key_dir()) == None::<Seq<char>>);
    assert(field(e, key_host()) == None::<Seq<char>>);
    assert(field(e, key_pid()) == None::<Seq<char>>);
    assert(field(e, key_msg()) == None::<Seq<char>>);
    assert(field(e, key_status()) == None::<Seq<char>>);
    assert(field(e, key_bytes()) == None::<Seq<char>>);
    let ws = encode_words(m);
        let k = kind_stop();
        lemma_decimal_no_space_u64(bytes);
        let nb = opt_decimal_u64(bytes);
        let a = e + opt_word(key_tool(), Some(tool));
        let b = a + opt_word(key_dir(), directory);
        let c = b + opt_word(key_status(), status);
        let d = c + opt_word(key_bytes(), nb);
        let f = d + opt_word(key_msg(), message);
        let k1 = seq![k] + opt_word(key_tool(), Some(tool));
        let k2 = k1 + opt_word(key_dir(), directory);
        let k3 = k2 + opt_word(key_status(), status);
        let k4 = k3 + opt_word(key_bytes(), nb);
        assert(clean_words(seq![k]));
        lemma_clean_push_opt(seq![k], key_tool(), Some(tool));
        lemma_clean_push_opt(k1, key_dir(), directory);
        lemma_clean_push_opt(k2, key_status(), status);
        lemma_clean_push_opt(k3, key_bytes(), nb);
        lemma_clean_push_opt(k4, key_msg(), message);
        lemma_words_of_join(ws);
        assert(ws.drop_first() =~= f);
        lemma_field_opt_word(e, key_tool(), Some(tool), key_tool());
        lemma_field_opt_word(a, key_dir(), directory, key_tool());
        lemma_field_opt_word(b, key_status(), status, key_tool());
        lemma_field_opt_word(c, key_bytes(), nb, key_tool());
        lemma_field_opt_word(d, key_msg(), message, key_tool());
        lemma_field_opt_word(e, key_tool(), Some(tool), key_dir());
        lemma_field_opt_word(a, key_dir(), directory, key_dir());
        lemma_field_opt_word(b, key_status(), status, key_dir());
        lemma_field_opt_word(c, key_bytes(), nb, key_dir());
        lemma_field_opt_word(d, key_msg(), message, key_dir());
        lemma_field_opt_word(e, key_tool(), Some(tool), key_status());
        lemma_field_opt_word(a, key_dir(), directory, key_status());
        lemma_field_opt_word(b, key_status(), status, key_status());
        lemma_field_opt_word(c, key_bytes(), nb, key_status());
        lemma_field_opt_word(d, key_msg(), message, key_status());
        lemma_field_opt_word(e, key_tool(), Some(tool), key_bytes());
        lemma_field_opt_word(a, key_dir(), directory, key_bytes());
        lemma_field_opt_word(b, key_status(), status, key_bytes());
        lemma_field_opt_word(c, key_bytes(), nb, key_bytes());
        lemma_field_opt_word(d, key_msg(), message, key_bytes());
        lemma_field_opt_word(e, key_tool(), Some(tool), key_msg());
        lemma_field_opt_word(a, key_dir(), directory, key_msg());
        lemma_field_opt_word(b, key_status(), status, key_msg());
        lemma_field_opt_word(c, key_bytes(), nb, key_msg());
        lemma_field_opt_word(d, key_msg(), message, key_msg());
}

/// A message whose text fields hold no whitespace decodes from its own line.
pub proof fn lemma_encode_decode(m: MessageView)
    requires
        writable(m),
    ensures
        decode(encode(m)) == Some(m),
{
    match m {
        MessageView::Hello { host, pid } => lemma_encode_decode_hello(host, pid),
        MessageView::Start { tool, directory } => lemma_encode_decode_start(tool, directory),
        MessageView::Progress { tool, directory, message, bytes } => lemma_encode_decode_progress(
            tool,
            directory,
            message,
            bytes,
        ),
        MessageView::Stop { tool, directory, status, bytes, message } => lemma_encode_decode_stop(
            tool,
            directory,
            status,
            bytes,
            message,
        ),
    }
}

/// What a line decodes to can be written back in one word per field.
pub proof fn lemma_decoded_writable(line: Seq<char>)
    requires
        decode(line) is Some,
    ensures
        writable(decode(line)->0),
{
    let ws = words(line);
    let rest = ws.drop_first();
    lemma_words_clean(line);
    assert(clean_words(rest)) by {
        assert forall|i: int| 0 <= i < rest.len() implies (#[trigger] rest[i]).len() > 0
            && no_space(rest[i]) by {
            assert(rest[i] == ws[i + 1]);
        }
    }
    assert(no_space(unknown_text()));
    if field(rest, key_tool()) is Some {
        lemma_field_clean(rest, key_tool());
    }
    if field(rest, key_dir()) is Some {
        lemma_field_clean(rest, key_dir());
    }
    if field(rest, key_host()) is Some {
        lemma_field_clean(rest, key_host());
    }
    if field(rest, key_msg()) is Some {
        lemma_field_clean(rest, key_msg());
    }
    if field(rest, key_status()) is Some {
        lemma_field_clean(rest, key_status());
    }
}

/// Decoding a line, writing the message out and decoding that line gives
/// the same message.
pub proof fn lemma_round_trip(line: Seq<char>)
    requires
        decode(line) is Some,
    ensures
        decode(encode(decode(line)->0)) == decode(line),
{
    lemma_decoded_writable(line);
    lemma_encode_decode(decode(line)->0);
}

/// A line fails to decode exactly when it has no word or its first word is
/// not one of the four kinds.
pub proof fn lemma_rejected_lines(line: Seq<char>)
    ensures
        decode(line) is None <==> (words(line).len() == 0 || !is_kind_word(words(line)[0])),
{
}

} // verus!
