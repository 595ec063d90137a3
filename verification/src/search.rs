//! The case-insensitive, suffix-normalizing substring filter applied to
//! account identifiers: an identifier matches a search key when its
//! lowercased form, with the well-known environment suffix tokens removed,
//! contains the lowercased key as a substring.

use vstd::prelude::*;

use vstd::string::StrSliceExecFns;

use crate::verified_contract::ContractModel;

verus! {

/// ASCII lowercasing of one character; everything else is kept as it is.
pub open spec fn lower_char(c: char) -> char {
    match c {
        'A' => 'a',
        'B' => 'b',
        'C' => 'c',
        'D' => 'd',
        'E' => 'e',
        'F' => 'f',
        'G' => 'g',
        'H' => 'h',
        'I' => 'i',
        'J' => 'j',
        'K' => 'k',
        'L' => 'l',
        'M' => 'm',
        'N' => 'n',
        'O' => 'o',
        'P' => 'p',
        'Q' => 'q',
        'R' => 'r',
        'S' => 's',
        'T' => 't',
        'U' => 'u',
        'V' => 'v',
        'W' => 'w',
        'X' => 'x',
        'Y' => 'y',
        'Z' => 'z',
        _ => c,
    }
}

/// ASCII lowercasing of a whole character sequence.
pub open spec fn lower(s: Seq<char>) -> Seq<char> {
    Seq::new(s.len(), |i: int| lower_char(s[i]))
}

/// `tok` occurs in `s` starting at position `i`.
pub open spec fn match_at(s: Seq<char>, tok: Seq<char>, i: int) -> bool {
    0 <= i && i + tok.len() <= s.len() && s.subrange(i, i + tok.len()) == tok
}

/// Removal of every (non-overlapping, left-to-right) occurrence of `tok`
/// from `s`.
pub open spec fn strip(s: Seq<char>, tok: Seq<char>) -> Seq<char>
    recommends
        tok.len() > 0,
    decreases s.len(),
{
    if s.len() == 0 {
        s
    } else if tok.len() > 0 && match_at(s, tok, 0) {
        strip(s.skip(tok.len() as int), tok)
    } else {
        seq![s[0]] + strip(s.skip(1), tok)
    }
}

/// `s` contains `p` as a contiguous substring (every sequence contains the
/// empty one).
pub open spec fn contains_sub(s: Seq<char>, p: Seq<char>) -> bool {
    exists|i: int| match_at(s, p, i)
}

/// The environment suffix token `.testnet`.
pub open spec fn testnet_token() -> Seq<char> {
    seq!['.', 't', 'e', 's', 't', 'n', 'e', 't']
}

/// The environment suffix token `.near`.
pub open spec fn near_token() -> Seq<char> {
    seq!['.', 'n', 'e', 'a', 'r']
}

/// An identifier as the filter sees it: lowercased, then with every
/// `.testnet` and every `.near` token removed, in that order.
pub open spec fn normalized(id: Seq<char>) -> Seq<char> {
    strip(strip(lower(id), testnet_token()), near_token())
}

/// An identifier matches a search key when its normalized form contains
/// the lowercased key.
pub open spec fn key_matches(id: Seq<char>, key: Seq<char>) -> bool {
    contains_sub(normalized(id), lower(key))
}

/// The store entries whose identifier matches the key, in store order.
pub open spec fn matching_entries(
    cs: Seq<(Seq<char>, ContractModel)>,
    key: Seq<char>,
) -> Seq<(Seq<char>, ContractModel)> {
    cs.filter(|e: (Seq<char>, ContractModel)| key_matches(e.0, key))
}

/// ASCII lowercasing of one character, executably.
fn lower_char_exec(c: char) -> (r: char)
    ensures
        r == lower_char(c),
{
    match c {
        'A' => 'a',
        'B' => 'b',
        'C' => 'c',
        'D' => 'd',
        'E' => 'e',
        'F' => 'f',
        'G' => 'g',
        'H' => 'h',
        'I' => 'i',
        'J' => 'j',
        'K' => 'k',
        'L' => 'l',
        'M' => 'm',
        'N' => 'n',
        'O' => 'o',
        'P' => 'p',
        'Q' => 'q',
        'R' => 'r',
        'S' => 's',
        'T' => 't',
        'U' => 'u',
        'V' => 'v',
        'W' => 'w',
        'X' => 'x',
        'Y' => 'y',
        'Z' => 'z',
        _ => c,
    }
}

/// The characters of a string, in order.
fn chars_of(s: &String) -> (res: Vec<char>)
    ensures
        res@ == s@,
{
    let sl = s.as_str();
    let n = sl.unicode_len();
    let mut res: Vec<char> = Vec::new();
    let mut i: usize = 0;
    while i < n
        invariant
            sl@ == s@,
            n == s@.len(),
            i <= n,
            res@.len() == i,
            forall|t: int| 0 <= t < i ==> res@[t] == s@[t],
        decreases n - i,
    {
        let c = sl.get_char(i);
        res.push(c);
        i = i + 1;
    }
    proof {
        assert(res@ =~= s@);
    }
    res
}

/// Lowercases a character sequence, executably.
fn lower_chars(v: &Vec<char>) -> (res: Vec<char>)
    ensures
        res@ == lower(v@),
{
    let mut res: Vec<char> = Vec::new();
    let mut i: usize = 0;
    while i < v.len()
        invariant
            i <= v@.len(),
            res@.len() == i,
            forall|t: int| 0 <= t < i ==> res@[t] == lower_char(v@[t]),
        decreases v@.len() - i,
    {
        res.push(lower_char_exec(v[i]));
        i = i + 1;
    }
    proof {
        assert(res@ =~= lower(v@));
    }
    res
}

/// Whether `tok` occurs in `v` at position `i`.
fn matches_at(v: &Vec<char>, tok: &Vec<char>, i: usize) -> (r: bool)
    requires
        i <= v@.len(),
    ensures
        r == match_at(v@, tok@, i as int),
{
    if tok.len() > v.len() - i {
        return false;
    }
    let mut k: usize = 0;
    while k < tok.len()
        invariant
            i + tok@.len() <= v@.len(),
            v@.len() <= usize::MAX,
            k <= tok@.len(),
            forall|t: int| 0 <= t < k ==> v@[i + t] == tok@[t],
        decreases tok@.len() - k,
    {
        if v[i + k] != tok[k] {
            proof {
                assert(v@.subrange(i as int, i as int + tok@.len() as int)[k as int] == v@[i
                    + k]);
            }
            return false;
        }
        k = k + 1;
    }
    proof {
        assert(v@.subrange(i as int, i as int + tok@.len() as int) =~= tok@);
    }
    true
}

/// Removes every occurrence of `tok` from `v`, left to right.
fn strip_token(v: &Vec<char>, tok: &Vec<char>) -> (res: Vec<char>)
    requires
        tok@.len() > 0,
    ensures
        res@ == strip(v@, tok@),
{
    let mut out: Vec<char> = Vec::new();
    let mut i: usize = 0;
    proof {
        assert(v@.skip(0) =~= v@);
        assert(out@ + strip(v@.skip(0), tok@) =~= strip(v@, tok@));
    }
    while i < v.len()
        invariant
            tok@.len() > 0,
            i <= v@.len(),
            strip(v@, tok@) == out@ + strip(v@.skip(i as int), tok@),
        decreases v@.len() - i,
    {
        let ghost rest = v@.skip(i as int);
        if matches_at(v, tok, i) {
            proof {
                assert(rest.subrange(0, tok@.len() as int) =~= v@.subrange(
                    i as int,
                    i as int + tok@.len() as int,
                ));
                assert(match_at(rest, tok@, 0));
                assert(rest.skip(tok@.len() as int) =~= v@.skip(i as int + tok@.len() as int));
            }
            i = i + tok.len();
        } else {
            let ghost pre = out@;
            out.push(v[i]);
            proof {
                if tok@.len() <= rest.len() {
                    assert(rest.subrange(0, tok@.len() as int) =~= v@.subrange(
                        i as int,
                        i as int + tok@.len() as int,
                    ));
                }
                assert(!match_at(rest, tok@, 0));
                assert(rest[0] == v@[i as int]);
                assert(rest.skip(1) =~= v@.skip(i as int + 1));
                assert(strip(rest, tok@) == seq![v@[i as int]] + strip(
                    v@.skip(i as int + 1),
                    tok@,
                ));
                assert(out@ =~= pre + seq![v@[i as int]]);
                assert((pre + seq![v@[i as int]]) + strip(v@.skip(i as int + 1), tok@) =~= pre
                    + (seq![v@[i as int]] + strip(v@.skip(i as int + 1), tok@)));
            }
            i = i + 1;
        }
    }
    proof {
        assert(v@.skip(i as int) =~= Seq::<char>::empty());
        assert(strip(Seq::<char>::empty(), tok@) =~= Seq::<char>::empty());
        assert(out@ + Seq::<char>::empty() =~= out@);
    }
    out
}

/// Whether `v` contains `p` as a contiguous substring.
fn contains_chars(v: &Vec<char>, p: &Vec<char>) -> (r: bool)
    ensures
        r == contains_sub(v@, p@),
{
    if p.len() > v.len() {
        proof {
            assert forall|j: int| !match_at(v@, p@, j) by {}
        }
        return false;
    }
    let bound = v.len() - p.len();
    let mut i: usize = 0;
    while i <= bound
        invariant
            p@.len() <= v@.len(),
            v@.len() <= usize::MAX,
            bound == v@.len() - p@.len(),
            i <= bound + 1,
            forall|j: int| 0 <= j < i ==> !match_at(v@, p@, j),
        decreases bound + 1 - i,
    {
        if matches_at(v, p, i) {
            proof {
                assert(match_at(v@, p@, i as int));
            }
            return true;
        }
        proof {
            if p@.len() == 0 {
                assert(v@.subrange(i as int, i as int) =~= p@);
                assert(match_at(v@, p@, i as int));
            }
        }
        i = i + 1;
    }
    proof {
        assert forall|j: int| !match_at(v@, p@, j) by {
            if 0 <= j <= bound {
                assert(!match_at(v@, p@, j));
            }
        }
    }
    false
}

/// Whether the stored identifier `id` matches the search key `key`, as
/// `key_matches` defines it.
pub fn matches_key(id: &String, key: &String) -> (r: bool)
    ensures
        r == key_matches(id@, key@),
{
    let id_chars = chars_of(id);
    let lowered = lower_chars(&id_chars);
    let testnet = token_vec_testnet();
    let stripped1 = strip_token(&lowered, &testnet);
    let near = token_vec_near();
    let stripped2 = strip_token(&stripped1, &near);
    let key_chars = chars_of(key);
    let key_lower = lower_chars(&key_chars);
    contains_chars(&stripped2, &key_lower)
}

/// The `.testnet` token as a character vector.
fn token_vec_testnet() -> (res: Vec<char>)
    ensures
        res@ == testnet_token(),
{
    let mut v: Vec<char> = Vec::new();
    v.push('.');
    v.push('t');
    v.push('e');
    v.push('s');
    v.push('t');
    v.push('n');
    v.push('e');
    v.push('t');
    proof {
        assert(v@ =~= testnet_token());
    }
    v
}

/// The `.near` token as a character vector.
fn token_vec_near() -> (res: Vec<char>)
    ensures
        res@ == near_token(),
{
    let mut v: Vec<char> = Vec::new();
    v.push('.');
    v.push('n');
    v.push('e');
    v.push('a');
    v.push('r');
    proof {
        assert(v@ =~= near_token());
    }
    v
}

} // verus!
