//! Framing and dispatch rules of the language-server bridge: which server
//! to start, the `Content-Length` header of each JSON-RPC message, and which
//! incoming message answers a request.
use vstd::prelude::*;
use vstd::string::StringSliceAdditionalSpecFns;
use vstd::utf8::{decode_utf8, encode_utf8, is_char_boundary, valid_utf8};
use crate::cache::same_text;
use crate::path_match::{trim_text, trimmed};

verus! {

/// ASCII code of a decimal digit's value `d`.
pub open spec fn digit_byte(d: nat) -> u8 {
    (48 + d) as u8
}

/// Decimal digits of `n`, most significant first, without leading zeros.
pub open spec fn decimal(n: nat) -> Seq<u8>
    decreases n,
{
    if n < 10 {
        seq![digit_byte(n)]
    } else {
        decimal(n / 10).push(digit_byte(n % 10))
    }
}

/// The header that precedes a message body of `len` bytes.
pub open spec fn header_of(len: nat) -> Seq<u8> {
    encode_utf8("Content-Length: "@) + decimal(len) + seq![13u8, 10u8, 13u8, 10u8]
}

/// A byte is an ASCII decimal digit.
pub open spec fn is_digit(c: u8) -> bool {
    48 <= c <= 57
}

/// Every byte is a decimal digit.
pub open spec fn all_digits(s: Seq<u8>) -> bool {
    forall|i: int| 0 <= i < s.len() ==> is_digit(#[trigger] s[i])
}

/// The value of a string of decimal digits.
pub open spec fn digits_value(s: Seq<u8>) -> nat
    decreases s.len(),
{
    if s.len() == 0 {
        0
    } else {
        digits_value(s.drop_last()) * 10 + (s.last() - 48) as nat
    }
}

/// The digits of an unsigned number: one leading `+` is allowed.
pub open spec fn unsigned_digits(s: Seq<u8>) -> Seq<u8> {
    if s.len() > 0 && s[0] == 43 {
        s.drop_first()
    } else {
        s
    }
}

/// The `usize` written in `s`, if it is one: an optional `+`, then at least
/// one decimal digit, and no more than `usize::MAX`.
pub open spec fn parsed_usize(s: Seq<u8>) -> Option<usize> {
    let d = unsigned_digits(s);
    if d.len() > 0 && all_digits(d) && digits_value(d) <= usize::MAX {
        Some(digits_value(d) as usize)
    } else {
        None
    }
}

/// What one header line of an incoming message says.
pub enum HeaderLine {
    /// The blank line that ends the headers.
    End,
    /// A `Content-Length` header with its value.
    ContentLength(usize),
    /// A `Content-Length` header whose value is not a number.
    BadLength,
    /// Any other header.
    Other,
}

/// The bytes of the `Content-Length:` header name.
pub open spec fn length_name() -> Seq<u8> {
    encode_utf8("Content-Length:"@)
}

/// What a header line says, after trimming white space around it.
pub open spec fn header_line_of(line: Seq<char>) -> HeaderLine {
    let t = trimmed(line);
    let b = encode_utf8(t);
    let n = length_name().len();
    if t.len() == 0 {
        HeaderLine::End
    } else if b.len() >= n && b.take(n as int) == length_name() {
        match parsed_usize(encode_utf8(trimmed(decode_utf8(b.skip(n as int))))) {
            Some(v) => HeaderLine::ContentLength(v),
            None => HeaderLine::BadLength,
        }
    } else {
        HeaderLine::Other
    }
}

/// Appends the decimal digits of `n`.
fn push_decimal(out: &mut Vec<u8>, n: usize)
    ensures
        final(out)@ == old(out)@ + decimal(n as nat),
    decreases n,
{
    if n >= 10 {
        push_decimal(out, n / 10);
    }
    let d = (n % 10) as u8;
    out.push(48 + d);
    proof {
        if n >= 10 {
            assert(decimal(n as nat) == decimal((n / 10) as nat).push(digit_byte((n % 10) as nat)));
        }
        assert(final(out)@ =~= old(out)@ + decimal(n as nat));
    }
}

/// The bytes of a text.
fn push_text(out: &mut Vec<u8>, s: &str)
    ensures
        final(out)@ == old(out)@ + s.spec_bytes(),
{
    let b = s.as_bytes();
    let mut i: usize = 0;
    while i < b.len()
        invariant
            i <= b.len(),
            b@ == s.spec_bytes(),
            out@ =~= old(out)@ + b@.take(i as int),
        decreases b.len() - i,
    {
        out.push(b[i]);
        i = i + 1;
    }
    proof {
        assert(b@.take(b@.len() as int) =~= b@);
    }
}

/// The `Content-Length` header for a message body of `len` bytes, with the
/// blank line that ends the headers.
pub fn frame_header(len: usize) -> (r: Vec<u8>)
    ensures
        r@ == header_of(len as nat),
{
    let mut r: Vec<u8> = Vec::new();
    push_text(&mut r, "Content-Length: ");
    push_decimal(&mut r, len);
    r.push(13);
    r.push(10);
    r.push(13);
    r.push(10);
    proof {
        assert(r@ =~= header_of(len as nat));
    }
    r
}

proof fn lemma_digits_value_grows(s: Seq<u8>, k: int)
    requires
        0 <= k <= s.len(),
        all_digits(s),
    ensures
        digits_value(s.take(k)) <= digits_value(s),
    decreases s.len(),
{
    if k < s.len() {
        assert(s.drop_last().take(k) =~= s.take(k));
        lemma_digits_value_grows(s.drop_last(), k);
    } else {
        assert(s.take(k) =~= s);
    }
}

/// Reads an unsigned decimal number: an optional `+`, then digits only.
pub fn parse_usize(s: &[u8]) -> (r: Option<usize>)
    ensures
        r == parsed_usize(s@),
{
    let start: usize = if s.len() > 0 && s[0] == 43 {
        1
    } else {
        0
    };
    let ghost d = unsigned_digits(s@);
    assert(d =~= s@.skip(start as int));
    if s.len() == start {
        return None;
    }
    let mut value: usize = 0;
    let mut i: usize = start;
    while i < s.len()
        invariant
            start <= i <= s.len(),
            d == s@.skip(start as int),
            d == unsigned_digits(s@),
            forall|k: int| 0 <= k < i - start ==> is_digit(#[trigger] d[k]),
            value == digits_value(d.take(i - start)),
        decreases s.len() - i,
    {
        let c = s[i];
        assert(d.take(i + 1 - start).drop_last() =~= d.take(i - start));
        assert(d[i - start] == s@[i as int]);
        if c < 48 || c > 57 {
            assert(!is_digit(d[i - start]));
            assert(!all_digits(d));
            return None;
        }
        let digit = (c - 48) as usize;
        if value > (usize::MAX - digit) / 10 {
            proof {
                assert(digits_value(d.take(i + 1 - start)) > usize::MAX) by (nonlinear_arith)
                    requires
                        value > (usize::MAX - digit) / 10,
                        digits_value(d.take(i + 1 - start)) == value * 10 + digit,
                ;
                if all_digits(d) {
                    lemma_digits_value_grows(d, i + 1 - start);
                }
            }
            return None;
        }
        value = value * 10 + digit;
        i = i + 1;
    }
    proof {
        assert(d.take(d.len() as int) =~= d);
    }
    Some(value)
}

proof fn lemma_ascii_prefix_boundary(b: Seq<u8>, n: int)
    requires
        valid_utf8(b),
        0 <= n <= b.len(),
        forall|i: int| 0 <= i < n ==> #[trigger] b[i] < 128,
    ensures
        is_char_boundary(b, n),
    decreases n,
{
    if n > 0 {
        assert(b[0] < 128);
        let rest = b.subrange(1, b.len() as int);
        assert(vstd::utf8::pop_first_scalar(b) == rest);
        assert forall|i: int| 0 <= i < n - 1 implies #[trigger] rest[i] < 128 by {
            assert(rest[i] == b[i + 1]);
        }
        lemma_ascii_prefix_boundary(rest, n - 1);
    }
}

/// Whether `a` begins with the bytes `b`.
fn starts_with_bytes(a: &[u8], b: &[u8]) -> (r: bool)
    ensures
        r == (a@.len() >= b@.len() && a@.take(b@.len() as int) == b@),
{
    if a.len() < b.len() {
        return false;
    }
    let mut i: usize = 0;
    while i < b.len()
        invariant
            i <= b.len() <= a.len(),
            forall|k: int| 0 <= k < i ==> a@[k] == b@[k],
        decreases b.len() - i,
    {
        if a[i] != b[i] {
            assert(a@.take(b@.len() as int)[i as int] != b@[i as int]);
            return false;
        }
        i = i + 1;
    }
    assert(a@.take(b@.len() as int) =~= b@);
    true
}

/// Reads one header line of an incoming message. White space around the
/// line, and around a `Content-Length` value, is ignored.
pub fn classify_header(line: &str) -> (r: HeaderLine)
    ensures
        r == header_line_of(line@),
{
    broadcast use vstd::string::group_string_axioms;
    broadcast use vstd::utf8::encode_utf8_valid_utf8;

    let t = trim_text(line);
    if t.is_empty() {
        return HeaderLine::End;
    }
    let name = "Content-Length:";
    let tb = t.as_bytes();
    let nb = name.as_bytes();
    if !starts_with_bytes(tb, nb) {
        return HeaderLine::Other;
    }
    let n = nb.len();
    proof {
        reveal_strlit("Content-Length:");
        assert(vstd::string::is_ascii(name));
        assert(nb@ =~= Seq::new(name@.len(), |i| name@.index(i) as u8));
        assert forall|i: int| 0 <= i < n implies #[trigger] tb@[i] < 128 by {
            assert(tb@[i] == tb@.take(n as int)[i]);
        }
        lemma_ascii_prefix_boundary(tb@, n as int);
    }
    let (_, rest) = t.split_at(n);
    let value = trim_text(rest);
    proof {
        vstd::utf8::encode_utf8_decode_utf8(rest@);
        assert(rest.spec_bytes() =~= tb@.skip(n as int));
    }
    match parse_usize(value.as_bytes()) {
        Some(v) => HeaderLine::ContentLength(v),
        None => HeaderLine::BadLength,
    }
}

/// What to do with a message read while waiting for the reply to a request.
pub enum ReplyStep {
    /// A diagnostics notification: forward its parameters and keep waiting.
    Diagnostics,
    /// The reply: return it.
    Reply,
    /// Anything else: drop it and keep waiting.
    Skip,
}

/// The method of diagnostics notifications.
pub open spec fn diagnostics_method() -> Seq<char> {
    "textDocument/publishDiagnostics"@
}

/// Classifies an incoming message by its method (if any) and, for a request
/// that carries an id, by whether the message carries the same id. A request
/// without an id is answered by the first message that is not diagnostics.
pub fn reply_step(method: Option<&str>, request_has_id: bool, ids_match: bool) -> (r: ReplyStep)
    ensures
        (method matches Some(m) && m@ == diagnostics_method()) ==> r is Diagnostics,
        !(method matches Some(m) && m@ == diagnostics_method()) ==> (if !request_has_id
            || ids_match {
            r is Reply
        } else {
            r is Skip
        }),
{
    let is_diagnostics = match method {
        Some(m) => same_text(m, "textDocument/publishDiagnostics"),
        None => false,
    };
    if is_diagnostics {
        ReplyStep::Diagnostics
    } else if !request_has_id || ids_match {
        ReplyStep::Reply
    } else {
        ReplyStep::Skip
    }
}

/// The language server for a workspace: rust-analyzer where the root holds
/// a Cargo manifest, else the TypeScript language server over stdio.
pub fn server_command(has_cargo_manifest: bool) -> (r: (String, Vec<String>))
    ensures
        has_cargo_manifest ==> r.0@ == "rust-analyzer"@ && r.1@.len() == 0,
        !has_cargo_manifest ==> r.0@ == "typescript-language-server"@ && r.1@.len() == 1
            && r.1@[0]@ == "--stdio"@,
{
    broadcast use vstd::string::group_string_axioms;

    let mut args: Vec<String> = Vec::new();
    if has_cargo_manifest {
        ("rust-analyzer".to_string(), args)
    } else {
        args.push("--stdio".to_string());
        ("typescript-language-server".to_string(), args)
    }
}

} // verus!
