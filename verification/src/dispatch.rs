//! The dispatcher around the codec: source resolution, trailing
//! whitespace trimming before a decode, and the newline that follows
//! encoded output.

use vstd::prelude::*;

use crate::Error;
use crate::codec::decode_spec;
use crate::codec::encode_spec;
use crate::codec::is_base64url_char;
use crate::codec::is_encoded_text;
use crate::codec::lemma_round_trip;

verus! {

/// The direction of one invocation.
#[derive(Clone, Copy, Debug, PartialEq, Eq, Structural)]
pub enum Mode {
    Encode,
    Decode,
}

/// Where the input bytes come from. The sentinel `-` and an omitted
/// argument both mean standard input.
#[derive(Debug, PartialEq, Eq)]
pub enum Source {
    StandardInput,
    NamedFile(String),
}

/// Whether the byte `b` is ASCII whitespace: space, tab, line feed,
/// vertical tab, form feed or carriage return.
pub open spec fn is_whitespace_byte(b: u8) -> bool {
    b == 32 || b == 9 || b == 10 || b == 11 || b == 12 || b == 13
}

/// The sequence `s` with its trailing run of whitespace removed.
pub open spec fn trimmed(s: Seq<u8>) -> Seq<u8>
    decreases s.len(),
{
    if s.len() > 0 && is_whitespace_byte(s[s.len() - 1]) {
        trimmed(s.drop_last())
    } else {
        s
    }
}

/// Whether the text names standard input: the single character `-`.
pub open spec fn is_stdin_sentinel(s: Seq<char>) -> bool {
    s.len() == 1 && s[0] == '-'
}

/// Whether the optional FILE argument resolves to standard input: it is
/// omitted, or it is the sentinel `-`.
pub open spec fn resolves_to_stdin(file: Option<Seq<char>>) -> bool {
    file is None || is_stdin_sentinel(file->0)
}

/// Source resolution: an omitted FILE argument and the explicit
/// sentinel `-` resolve alike, to standard input, and no other
/// argument does.
pub proof fn lemma_source_resolution(s: Seq<char>)
    ensures
        resolves_to_stdin(None),
        is_stdin_sentinel(s) ==> resolves_to_stdin(Some(s)),
        resolves_to_stdin(Some(s)) ==> is_stdin_sentinel(s),
{
}

/// Trimming a sequence that does not end in whitespace, extended by any
/// run of whitespace, gives the sequence back.
proof fn lemma_trimmed_concat(s: Seq<u8>, ws: Seq<u8>)
    requires
        s.len() > 0 ==> !is_whitespace_byte(s.last()),
        forall|i: int| 0 <= i < ws.len() ==> is_whitespace_byte(#[trigger] ws[i]),
    ensures
        trimmed(s + ws) == s,
    decreases ws.len(),
{
    if ws.len() == 0 {
        assert(s + ws =~= s);
    } else {
        assert((s + ws).last() == ws.last());
        assert((s + ws).drop_last() =~= s + ws.drop_last());
        assert(forall|i: int|
            0 <= i < ws.drop_last().len() ==> is_whitespace_byte(#[trigger] ws.drop_last()[i]));
        lemma_trimmed_concat(s, ws.drop_last());
    }
}

/// Whitespace tolerance: encoded text followed by any trailing run of
/// whitespace, once trimmed, is the encoded text itself, well formed,
/// and decodes to the original bytes.
pub proof fn lemma_whitespace_tolerance(b: Seq<u8>, ws: Seq<u8>)
    requires
        forall|i: int| 0 <= i < ws.len() ==> is_whitespace_byte(#[trigger] ws[i]),
    ensures
        trimmed(encode_spec(b) + ws) == encode_spec(b),
        is_encoded_text(trimmed(encode_spec(b) + ws)),
        decode_spec(trimmed(encode_spec(b) + ws)) == b,
{
    lemma_round_trip(b);
    let e = encode_spec(b);
    if e.len() > 0 {
        assert(is_base64url_char(e.last()));
        assert(!is_whitespace_byte(e.last()));
    }
    lemma_trimmed_concat(e, ws);
}

// ---------------------------------------------------------------------------
// Executable dispatcher
// ---------------------------------------------------------------------------

/// Whether a byte is ASCII whitespace.
fn is_ws_byte(b: u8) -> (r: bool)
    ensures
        r == is_whitespace_byte(b),
{
    b == 32 || b == 9 || b == 10 || b == 11 || b == 12 || b == 13
}

/// Strip the trailing run of whitespace from `input`.
pub fn trim_trailing_whitespace(input: &[u8]) -> (r: &[u8])
    ensures
        r@ == trimmed(input@),
{
    let mut n: usize = input.len();
    proof {
        assert(input@.take(n as int) =~= input@);
    }
    while n > 0 && is_ws_byte(input[n - 1])
        invariant
            n <= input@.len(),
            trimmed(input@.take(n as int)) == trimmed(input@),
        decreases n,
    {
        proof {
            assert(input@.take(n as int).drop_last() =~= input@.take(n as int - 1));
        }
        n = n - 1;
    }
    let r = vstd::slice::slice_subrange(input, 0, n);
    proof {
        assert(r@ =~= input@.take(n as int));
    }
    r
}

/// Encode: the bytes of `input` as base64url text, with the single
/// trailing newline that encoded output carries.
pub fn encode(input: &[u8]) -> (r: Vec<u8>)
    ensures
        r@ == encode_spec(input@).push(10u8),
{
    let mut out = crate::codec::encode_text(input);
    out.push(10);
    out
}

/// Decode: strip the trailing run of whitespace from `input`, then
/// decode what remains as base64url text. Fails with `InvalidEncoding`
/// exactly when the trimmed text is not well formed.
pub fn decode(input: &[u8]) -> (r: Result<Vec<u8>, Error>)
    ensures
        r is Ok <==> is_encoded_text(trimmed(input@)),
        r is Ok ==> r->Ok_0@ == decode_spec(trimmed(input@)),
        r is Err ==> r->Err_0 == Error::InvalidEncoding,
{
    let text = trim_trailing_whitespace(input);
    crate::codec::decode_text(text)
}

/// Run the codec in the requested direction over fully read input.
/// Encoding always succeeds and ends in a newline; decoding trims
/// trailing whitespace first and fails exactly on ill-formed text.
pub fn transform(mode: Mode, input: &[u8]) -> (r: Result<Vec<u8>, Error>)
    ensures
        mode is Encode ==> r is Ok && r->Ok_0@ == encode_spec(input@).push(10u8),
        mode is Decode ==> (r is Ok <==> is_encoded_text(trimmed(input@))),
        mode is Decode && r is Ok ==> r->Ok_0@ == decode_spec(trimmed(input@)),
        r is Err ==> r->Err_0 == Error::InvalidEncoding,
{
    match mode {
        Mode::Encode => Ok(encode(input)),
        Mode::Decode => decode(input),
    }
}

/// Resolve the optional FILE argument: an omitted argument and the
/// sentinel `-` both name standard input; anything else names a file.
pub fn resolve_source(file: Option<String>) -> (r: Source)
    ensures
        r is StandardInput <==> resolves_to_stdin(match file {
            Option::Some(p) => Option::Some(p@),
            Option::None => Option::None,
        }),
        file matches Some(p) ==> is_stdin_sentinel(p@) || r == Source::NamedFile(p),
{
    match file {
        Option::None => Source::StandardInput,
        Option::Some(s) => {
            if s.as_str().unicode_len() == 1 && s.as_str().get_char(0) == '-' {
                Source::StandardInput
            } else {
                Source::NamedFile(s)
            }
        },
    }
}

} // verus!
