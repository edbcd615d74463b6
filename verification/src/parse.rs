//! The input-list syntax: a byte string naming raster paths, separated by
//! semicolons, or by commas when splitting on semicolons yields a single
//! token. Tokens are trimmed of ASCII whitespace and empty tokens are
//! dropped; fewer than two usable paths is a hard error.

use vstd::prelude::*;

use crate::OverlayError;

verus! {

/// ASCII whitespace: space, tab, line feed, vertical tab, form feed,
/// carriage return.
pub open spec fn is_ascii_space(b: u8) -> bool {
    b == 32 || b == 9 || b == 10 || b == 11 || b == 12 || b == 13
}

/// `s` without its leading ASCII whitespace.
pub open spec fn drop_leading_spaces(s: Seq<u8>) -> Seq<u8>
    decreases s.len(),
{
    if s.len() > 0 && is_ascii_space(s[0]) {
        drop_leading_spaces(s.drop_first())
    } else {
        s
    }
}

/// `s` without its trailing ASCII whitespace.
pub open spec fn drop_trailing_spaces(s: Seq<u8>) -> Seq<u8>
    decreases s.len(),
{
    if s.len() > 0 && is_ascii_space(s.last()) {
        drop_trailing_spaces(s.drop_last())
    } else {
        s
    }
}

/// `s` without leading or trailing ASCII whitespace.
pub open spec fn trim_bytes(s: Seq<u8>) -> Seq<u8> {
    drop_trailing_spaces(drop_leading_spaces(s))
}

/// The tokens of `s` split on the byte `sep`: always one more token than
/// there are separator bytes, so the empty string has one empty token.
pub open spec fn split_bytes(s: Seq<u8>, sep: u8) -> Seq<Seq<u8>>
    decreases s.len(),
{
    if s.len() == 0 {
        seq![Seq::<u8>::empty()]
    } else {
        let prefix = split_bytes(s.drop_last(), sep);
        if s.last() == sep {
            prefix.push(Seq::<u8>::empty())
        } else {
            prefix.update(prefix.len() - 1, prefix.last().push(s.last()))
        }
    }
}

/// Splitting yields at least one token.
pub proof fn lemma_split_at_least_one(s: Seq<u8>, sep: u8)
    ensures
        split_bytes(s, sep).len() >= 1,
    decreases s.len(),
{
    if s.len() > 0 {
        lemma_split_at_least_one(s.drop_last(), sep);
    }
}

/// A string without the separator is a single token.
pub proof fn lemma_split_no_separator(s: Seq<u8>, sep: u8)
    requires
        forall|i: int| 0 <= i < s.len() ==> s[i] != sep,
    ensures
        split_bytes(s, sep).len() == 1,
    decreases s.len(),
{
    if s.len() > 0 {
        assert(forall|i: int| 0 <= i < s.drop_last().len() ==> s.drop_last()[i] != sep);
        lemma_split_no_separator(s.drop_last(), sep);
    }
}

/// The raw token list of the input string: split on semicolons; when that
/// yields a single token, split on commas instead.
pub open spec fn raw_tokens(s: Seq<u8>) -> Seq<Seq<u8>> {
    if split_bytes(s, 59u8).len() > 1 {
        split_bytes(s, 59u8)
    } else {
        split_bytes(s, 44u8)
    }
}

/// A single input path — no separator byte at all — yields one raw token.
pub proof fn lemma_no_separator_single_token(s: Seq<u8>)
    requires
        forall|i: int| 0 <= i < s.len() ==> s[i] != 59u8 && s[i] != 44u8,
    ensures
        raw_tokens(s).len() == 1,
{
    lemma_split_no_separator(s, 59u8);
    lemma_split_no_separator(s, 44u8);
}

/// Trimming and dropping empty tokens never yields more paths than there
/// were tokens.
pub proof fn lemma_kept_at_most_tokens(toks: Seq<Seq<u8>>)
    ensures
        kept_tokens(toks).len() <= toks.len(),
    decreases toks.len(),
{
    if toks.len() > 0 {
        lemma_kept_at_most_tokens(toks.drop_last());
    }
}

/// A single input path — no separator byte at all — leaves at most one
/// usable path, which the list parser rejects.
pub proof fn lemma_single_path_rejected(s: Seq<u8>)
    requires
        forall|i: int| 0 <= i < s.len() ==> s[i] != 59u8 && s[i] != 44u8,
    ensures
        kept_tokens(raw_tokens(s)).len() < 2,
{
    lemma_no_separator_single_token(s);
    lemma_kept_at_most_tokens(raw_tokens(s));
}

/// The kept paths: each raw token trimmed, empty results dropped.
pub open spec fn kept_tokens(toks: Seq<Seq<u8>>) -> Seq<Seq<u8>>
    decreases toks.len(),
{
    if toks.len() == 0 {
        Seq::<Seq<u8>>::empty()
    } else {
        let prefix = kept_tokens(toks.drop_last());
        let t = trim_bytes(toks.last());
        if t.len() > 0 {
            prefix.push(t)
        } else {
            prefix
        }
    }
}

/// Decides `is_ascii_space`.
fn byte_is_space(b: u8) -> (r: bool)
    ensures
        r == is_ascii_space(b),
{
    b == 32 || b == 9 || b == 10 || b == 11 || b == 12 || b == 13
}

/// Splits `input` on the byte `sep` into its tokens.
pub fn split_on(input: &Vec<u8>, sep: u8) -> (tokens: Vec<Vec<u8>>)
    ensures
        tokens@.len() == split_bytes(input@, sep).len(),
        forall|j: int| 0 <= j < tokens@.len() ==> tokens@[j]@ == split_bytes(input@, sep)[j],
{
    let mut tokens: Vec<Vec<u8>> = Vec::new();
    let mut cur: Vec<u8> = Vec::new();
    let mut i: usize = 0;
    while i < input.len()
        invariant
            i <= input@.len(),
            split_bytes(input@.take(i as int), sep).len() == tokens@.len() + 1,
            forall|j: int|
                0 <= j < tokens@.len() ==> tokens@[j]@ == split_bytes(input@.take(i as int), sep)[j],
            split_bytes(input@.take(i as int), sep).last() == cur@,
        decreases input@.len() - i,
    {
        proof {
            let t0 = input@.take(i as int);
            let t1 = input@.take(i + 1 as int);
            assert(t1.drop_last() =~= t0);
            assert(t1.last() == input@[i as int]);
        }
        let b = input[i];
        if b == sep {
            tokens.push(cur);
            cur = Vec::new();
        } else {
            let mut next = cur;
            next.push(b);
            cur = next;
        }
        i += 1;
    }
    proof {
        assert(input@.take(input@.len() as int) =~= input@);
    }
    tokens.push(cur);
    tokens
}

/// Trims ASCII whitespace from both ends of `input`.
pub fn trim_ascii(input: &Vec<u8>) -> (out: Vec<u8>)
    ensures
        out@ == trim_bytes(input@),
{
    let n = input.len();
    proof {
        assert(input@.skip(0) =~= input@);
    }
    let mut lo: usize = 0;
    while lo < n && byte_is_space(input[lo])
        invariant
            lo <= n,
            n == input@.len(),
            drop_leading_spaces(input@) == drop_leading_spaces(input@.skip(lo as int)),
        decreases n - lo,
    {
        proof {
            let s = input@.skip(lo as int);
            assert(s[0] == input@[lo as int]);
            assert(s.drop_first() =~= input@.skip(lo + 1 as int));
        }
        lo += 1;
    }
    proof {
        if lo < n {
            assert(!is_ascii_space(input@.skip(lo as int)[0]));
        }
        assert(drop_leading_spaces(input@) == input@.skip(lo as int));
    }
    let mut hi: usize = n;
    while hi > lo && byte_is_space(input[hi - 1])
        invariant
            lo <= hi <= n,
            n == input@.len(),
            drop_leading_spaces(input@) == input@.skip(lo as int),
            drop_trailing_spaces(input@.skip(lo as int)) == drop_trailing_spaces(
                input@.subrange(lo as int, hi as int),
            ),
        decreases hi,
    {
        proof {
            let s = input@.subrange(lo as int, hi as int);
            assert(s.len() > 0);
            assert(s.last() == input@[hi - 1 as int]);
            assert(s.drop_last() =~= input@.subrange(lo as int, hi - 1 as int));
        }
        hi -= 1;
    }
    proof {
        assert(input@.skip(lo as int) =~= input@.subrange(lo as int, n as int));
        if hi > lo {
            assert(!is_ascii_space(input@.subrange(lo as int, hi as int).last()));
        }
        assert(trim_bytes(input@) == input@.subrange(lo as int, hi as int));
    }
    let mut out: Vec<u8> = Vec::new();
    let mut j: usize = lo;
    while j < hi
        invariant
            lo <= j <= hi <= n,
            n == input@.len(),
            out@ == input@.subrange(lo as int, j as int),
        decreases hi - j,
    {
        out.push(input[j]);
        proof {
            assert(out@ =~= input@.subrange(lo as int, j + 1 as int));
        }
        j += 1;
    }
    out
}

/// Splits the input list into its paths: semicolon tokens, with a comma
/// fallback when no semicolon splits the string. The kept paths are the
/// trimmed, non-empty tokens in order; fewer than two of them is rejected.
pub fn parse_input_list(input: &Vec<u8>) -> (result: Result<Vec<Vec<u8>>, OverlayError>)
    ensures
        match result {
            Ok(paths) => {
                &&& paths@.len() == kept_tokens(raw_tokens(input@)).len()
                &&& paths@.len() >= 2
                &&& forall|i: int|
                    0 <= i < paths@.len() ==> paths@[i]@ == kept_tokens(raw_tokens(input@))[i]
            },
            Err(e) => {
                &&& e == OverlayError::InvalidInput
                &&& kept_tokens(raw_tokens(input@)).len() < 2
            },
        },
{
    let mut tokens = split_on(input, 59u8);
    proof {
        lemma_split_at_least_one(input@, 59u8);
    }
    if tokens.len() == 1 {
        tokens = split_on(input, 44u8);
    }
    let ghost raw = raw_tokens(input@);
    proof {
        assert(tokens@.len() == raw.len());
        assert(forall|j: int| 0 <= j < tokens@.len() ==> tokens@[j]@ == raw[j]);
    }
    let mut paths: Vec<Vec<u8>> = Vec::new();
    let mut j: usize = 0;
    while j < tokens.len()
        invariant
            j <= tokens@.len(),
            tokens@.len() == raw.len(),
            forall|i: int| 0 <= i < tokens@.len() ==> tokens@[i]@ == raw[i],
            paths@.len() == kept_tokens(raw.take(j as int)).len(),
            forall|i: int|
                0 <= i < paths@.len() ==> paths@[i]@ == kept_tokens(raw.take(j as int))[i],
        decreases tokens@.len() - j,
    {
        proof {
            let t0 = raw.take(j as int);
            let t1 = raw.take(j + 1 as int);
            assert(t1.drop_last() =~= t0);
            assert(t1.last() == raw[j as int]);
        }
        let t = trim_ascii(&tokens[j]);
        if t.len() > 0 {
            paths.push(t);
        }
        j += 1;
    }
    proof {
        assert(raw.take(raw.len() as int) =~= raw);
    }
    if paths.len() < 2 {
        return Err(OverlayError::InvalidInput);
    }
    Ok(paths)
}

} // verus!
