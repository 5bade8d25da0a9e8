//! Reading a number out of a field.
use std::str::FromStr;
use vstd::prelude::*;
use vstd::string::StringSliceAdditionalSpecFns;
use vstd::utf8::valid_utf8;

verus! {

/// The ASCII whitespace that is cut off round a number: tab, line feed, vertical tab,
/// form feed, carriage return and space.
pub open spec fn is_blank(byte: u8) -> bool {
    9 <= byte <= 13 || byte == 32
}

/// `text` without the whitespace at its beginning.
pub open spec fn trim_start(text: Seq<u8>) -> Seq<u8>
    decreases text.len(),
{
    if text.len() > 0 && is_blank(text.first()) {
        trim_start(text.drop_first())
    } else {
        text
    }
}

/// `text` without the whitespace at its end.
pub open spec fn trim_end(text: Seq<u8>) -> Seq<u8>
    decreases text.len(),
{
    if text.len() > 0 && is_blank(text.last()) {
        trim_end(text.drop_last())
    } else {
        text
    }
}

/// `text` without the whitespace round it.
pub open spec fn trimmed(text: Seq<u8>) -> Seq<u8> {
    trim_end(trim_start(text))
}

/// Whether `byte` is ASCII whitespace.
pub fn blank(byte: u8) -> (yes: bool)
    ensures
        yes == is_blank(byte),
{
    (9 <= byte && byte <= 13) || byte == 32
}

/// Cutting whitespace off the beginning gives the same as skipping `k` bytes that
/// are all whitespace first.
proof fn lemma_trim_start_skips(text: Seq<u8>, k: int)
    requires
        0 <= k <= text.len(),
        forall|i: int| 0 <= i < k ==> is_blank(text[i]),
    ensures
        trim_start(text) == trim_start(text.subrange(k, text.len() as int)),
    decreases k,
{
    if k == 0 {
        assert(text.subrange(0, text.len() as int) =~= text);
    } else {
        lemma_trim_start_skips(text.drop_first(), k - 1);
        assert(text.drop_first().subrange(k - 1, text.len() - 1) =~= text.subrange(
            k,
            text.len() as int,
        ));
    }
}

/// Cutting whitespace off the end gives the same as dropping bytes from the end that
/// are all whitespace first, down to length `k`.
proof fn lemma_trim_end_skips(text: Seq<u8>, k: int)
    requires
        0 <= k <= text.len(),
        forall|i: int| k <= i < text.len() ==> is_blank(text[i]),
    ensures
        trim_end(text) == trim_end(text.subrange(0, k)),
    decreases text.len() - k,
{
    if k == text.len() {
        assert(text.subrange(0, k) =~= text);
    } else {
        lemma_trim_end_skips(text.drop_last(), k);
        assert(text.drop_last().subrange(0, k) =~= text.subrange(0, k));
    }
}

/// The part of `bytes` between its leading and its trailing whitespace, as a slice of
/// `bytes` itself.
pub fn trim<'a>(bytes: &'a [u8]) -> (inner: &'a [u8])
    ensures
        inner@ == trimmed(bytes@),
{
    let mut from: usize = 0;
    while from < bytes.len() && blank(bytes[from])
        invariant
            from <= bytes@.len(),
            forall|i: int| 0 <= i < from ==> is_blank(bytes@[i]),
        decreases bytes@.len() - from,
    {
        from += 1;
    }
    let mut to: usize = bytes.len();
    while to > from && blank(bytes[to - 1])
        invariant
            from <= to <= bytes@.len(),
            forall|i: int| to <= i < bytes@.len() ==> is_blank(bytes@[i]),
        decreases to,
    {
        to -= 1;
    }
    proof {
        let rest = bytes@.subrange(from as int, bytes@.len() as int);
        lemma_trim_start_skips(bytes@, from as int);
        assert(trim_start(rest) == rest);
        lemma_trim_end_skips(rest, to - from);
        assert(rest.subrange(0, to - from) =~= bytes@.subrange(from as int, to as int));
        assert(trim_end(bytes@.subrange(from as int, to as int)) == bytes@.subrange(
            from as int,
            to as int,
        ));
    }
    vstd::slice::slice_subrange(bytes, from, to)
}

/// `std::str::from_utf8`, with its error dropped: the bytes as text if they are valid
/// UTF-8, and nothing otherwise. The text is the same bytes, not a copy.
#[verifier::external_body]
fn as_text<'a>(bytes: &'a [u8]) -> (text: Option<&'a str>)
    ensures
        text is Some <==> valid_utf8(bytes@),
        text matches Some(s) ==> s.spec_bytes() == bytes@,
{
    std::str::from_utf8(bytes).ok()
}

/// `str::parse`, with its error dropped. What counts as a `T` is up to `T`'s own
/// `FromStr`, so nothing is claimed of the result.
#[verifier::external_body]
fn parse_text<T: FromStr>(text: &str) -> (parsed: Option<T>) {
    text.parse::<T>().ok()
}

/// The text that is read as a number: `bytes` without the whitespace round them, if
/// what is left is valid UTF-8, and nothing otherwise.
pub fn number_text<'a>(bytes: &'a [u8]) -> (text: Option<&'a str>)
    ensures
        text is Some <==> valid_utf8(trimmed(bytes@)),
        text matches Some(s) ==> s.spec_bytes() == trimmed(bytes@),
{
    as_text(trim(bytes))
}

/// Stores a parsed value: puts it in `n` and says `true` if there is one, and leaves
/// `n` as it is and says `false` if there is none.
pub fn store<T>(parsed: Option<T>, n: &mut T) -> (ok: bool)
    ensures
        ok == parsed is Some,
        parsed matches Some(v) ==> *final(n) == v,
        parsed is None ==> *final(n) == *old(n),
{
    match parsed {
        Some(v) => {
            *n = v;

            true
        },
        None => false,
    }
}

/// Parses `bytes` to a number `n` and returns `true` if that worked. On `false`, `n`
/// is left as it was.
///
/// Whitespace round the number is cut off first. What is left is read as text by the
/// parser that `T` brings along ([`number_text`] is what it is given, [`store`] what
/// is done with its answer); bytes that are no text are no number.
pub fn parse_number<T: FromStr>(bytes: &[u8], n: &mut T) -> (ok: bool)
    ensures
        !ok ==> *final(n) == *old(n),
        !valid_utf8(trimmed(bytes@)) ==> !ok,
{
    match number_text(bytes) {
        Some(text) => store(parse_text::<T>(text), n),
        None => false,
    }
}

} // verus!
