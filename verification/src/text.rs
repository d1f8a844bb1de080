//! Character-level text helpers shared by the body codec and the
//! configuration parsers: decimal rendering of integers, whitespace
//! trimming, splitting on a separator, and literal substring replacement.

use vstd::prelude::*;

verus! {

/// The decimal digit character for a value below ten.
pub open spec fn digit_char(d: nat) -> char {
    if d == 0 {
        '0'
    } else if d == 1 {
        '1'
    } else if d == 2 {
        '2'
    } else if d == 3 {
        '3'
    } else if d == 4 {
        '4'
    } else if d == 5 {
        '5'
    } else if d == 6 {
        '6'
    } else if d == 7 {
        '7'
    } else if d == 8 {
        '8'
    } else {
        '9'
    }
}

/// The decimal representation of `n`, most significant digit first,
/// without leading zeros (a single `'0'` for zero).
pub open spec fn dec_digits(n: nat) -> Seq<char>
    decreases n,
{
    if n < 10 {
        seq![digit_char(n)]
    } else {
        dec_digits(n / 10).push(digit_char(n % 10))
    }
}

fn digit_str(d: u64) -> (r: &'static str)
    requires
        d < 10,
    ensures
        r@ == seq![digit_char(d as nat)],
{
    proof {
        reveal_strlit("0");
        reveal_strlit("1");
        reveal_strlit("2");
        reveal_strlit("3");
        reveal_strlit("4");
        reveal_strlit("5");
        reveal_strlit("6");
        reveal_strlit("7");
        reveal_strlit("8");
        reveal_strlit("9");
    }
    let r: &'static str = if d == 0 {
        "0"
    } else if d == 1 {
        "1"
    } else if d == 2 {
        "2"
    } else if d == 3 {
        "3"
    } else if d == 4 {
        "4"
    } else if d == 5 {
        "5"
    } else if d == 6 {
        "6"
    } else if d == 7 {
        "7"
    } else if d == 8 {
        "8"
    } else {
        "9"
    };
    proof {
        assert(r@ =~= seq![digit_char(d as nat)]);
    }
    r
}

/// Renders `n` in decimal, exactly as `dec_digits` describes.
pub fn u64_to_string(n: u64) -> (r: String)
    ensures
        r@ == dec_digits(n as nat),
    decreases n,
{
    if n < 10 {
        String::from_str(digit_str(n))
    } else {
        let mut s = u64_to_string(n / 10);
        s.append(digit_str(n % 10));
        proof {
            assert(s@ =~= dec_digits((n / 10) as nat).push(digit_char((n % 10) as nat)));
        }
        s
    }
}

/// Whitespace, the characters that trimming removes: the Unicode
/// `White_Space` set, as `char::is_whitespace` recognizes it.
pub open spec fn is_space_char(c: char) -> bool {
    ||| c == ' '
    ||| c == '\t'
    ||| c == '\n'
    ||| c == '\r'
    ||| c == '\u{b}'
    ||| c == '\u{c}'
    ||| c == '\u{85}'
    ||| c == '\u{a0}'
    ||| c == '\u{1680}'
    ||| c == '\u{2000}'
    ||| c == '\u{2001}'
    ||| c == '\u{2002}'
    ||| c == '\u{2003}'
    ||| c == '\u{2004}'
    ||| c == '\u{2005}'
    ||| c == '\u{2006}'
    ||| c == '\u{2007}'
    ||| c == '\u{2008}'
    ||| c == '\u{2009}'
    ||| c == '\u{200a}'
    ||| c == '\u{2028}'
    ||| c == '\u{2029}'
    ||| c == '\u{202f}'
    ||| c == '\u{205f}'
    ||| c == '\u{3000}'
}

/// Runtime test matching `is_space_char`.
pub fn is_space(c: char) -> (r: bool)
    ensures
        r == is_space_char(c),
{
    c == ' ' || c == '\t' || c == '\n' || c == '\r' || c == '\u{b}' || c == '\u{c}'
        || c == '\u{85}' || c == '\u{a0}' || c == '\u{1680}' || c == '\u{2000}'
        || c == '\u{2001}' || c == '\u{2002}' || c == '\u{2003}' || c == '\u{2004}'
        || c == '\u{2005}' || c == '\u{2006}' || c == '\u{2007}' || c == '\u{2008}'
        || c == '\u{2009}' || c == '\u{200a}' || c == '\u{2028}' || c == '\u{2029}'
        || c == '\u{202f}' || c == '\u{205f}' || c == '\u{3000}'
}

/// `s` with leading whitespace removed.
pub open spec fn trim_front(s: Seq<char>) -> Seq<char>
    decreases s.len(),
{
    if s.len() > 0 && is_space_char(s[0]) {
        trim_front(s.skip(1))
    } else {
        s
    }
}

/// `s` with trailing whitespace removed.
pub open spec fn trim_back(s: Seq<char>) -> Seq<char>
    decreases s.len(),
{
    if s.len() > 0 && is_space_char(s[s.len() - 1]) {
        trim_back(s.take(s.len() - 1))
    } else {
        s
    }
}

/// `s` with both leading and trailing whitespace removed.
pub open spec fn spec_trim(s: Seq<char>) -> Seq<char> {
    trim_back(trim_front(s))
}

/// Trims whitespace from both ends of `s`.
pub fn trim_str(s: &str) -> (r: String)
    ensures
        r@ == spec_trim(s@),
{
    let len = s.unicode_len();
    let mut i: usize = 0;
    proof {
        assert(s@.skip(0) =~= s@);
    }
    while i < len && is_space(s.get_char(i))
        invariant
            0 <= i <= len,
            len == s@.len(),
            forall|j: int| 0 <= j < i ==> is_space_char(s@[j]),
            trim_front(s@) == trim_front(s@.skip(i as int)),
        decreases len - i,
    {
        proof {
            assert(s@.skip(i as int).skip(1) =~= s@.skip(i + 1));
        }
        i = i + 1;
    }
    proof {
        assert(trim_front(s@) =~= s@.skip(i as int));
    }
    let mut j: usize = len;
    while j > i && is_space(s.get_char(j - 1))
        invariant
            i <= j <= len,
            len == s@.len(),
            trim_front(s@) == s@.skip(i as int),
            i < len ==> !is_space_char(s@[i as int]),
            trim_back(trim_front(s@)) == trim_back(s@.subrange(i as int, j as int)),
        decreases j,
    {
        proof {
            let t = s@.subrange(i as int, j as int);
            assert(t[t.len() - 1] == s@[j - 1]);
            assert(t.take(t.len() - 1) =~= s@.subrange(i as int, j - 1));
        }
        j = j - 1;
    }
    proof {
        let t = s@.subrange(i as int, j as int);
        if t.len() > 0 {
            assert(t[t.len() - 1] == s@[j - 1]);
        }
        assert(trim_back(t) =~= t);
    }
    let r = s.substring_char(i, j);
    String::from_str(r)
}

/// Finds the first occurrence of `c` in `s` at or after `from`.
pub fn find_char_from(s: &str, from: usize, c: char) -> (r: Option<usize>)
    requires
        from <= s@.len(),
    ensures
        match r {
            Some(i) => from <= i < s@.len() && s@[i as int] == c && forall|j: int|
                from <= j < i ==> s@[j] != c,
            None => forall|j: int| from <= j < s@.len() ==> s@[j] != c,
        },
{
    let len = s.unicode_len();
    let mut i: usize = from;
    while i < len
        invariant
            from <= i <= len,
            len == s@.len(),
            forall|j: int| from <= j < i ==> s@[j] != c,
        decreases len - i,
    {
        if s.get_char(i) == c {
            return Some(i);
        }
        i = i + 1;
    }
    None
}

/// Whether `c` occurs anywhere in `s`.
pub fn contains_char(s: &str, c: char) -> (r: bool)
    ensures
        r == exists|i: int| 0 <= i < s@.len() && s@[i] == c,
{
    match find_char_from(s, 0, c) {
        Some(i) => {
            proof {
                assert(s@[i as int] == c);
            }
            true
        },
        None => false,
    }
}

/// The segments of `s` between occurrences of `sep`, in order; an input
/// without the separator yields one segment, so the result is never empty.
pub open spec fn spec_split(s: Seq<char>, sep: char) -> Seq<Seq<char>>
    decreases s.len(),
{
    if s.len() == 0 {
        seq![Seq::empty()]
    } else if s[0] == sep {
        seq![Seq::<char>::empty()] + spec_split(s.skip(1), sep)
    } else {
        let rest = spec_split(s.skip(1), sep);
        rest.update(0, seq![s[0]] + rest[0])
    }
}

pub proof fn lemma_split_nonempty(s: Seq<char>, sep: char)
    ensures
        spec_split(s, sep).len() >= 1,
    decreases s.len(),
{
    if s.len() > 0 {
        lemma_split_nonempty(s.skip(1), sep);
    }
}

/// Unfolds `spec_split` at the first separator position.
proof fn lemma_split_at(s: Seq<char>, sep: char, i: int)
    requires
        0 <= i < s.len(),
        s[i] == sep,
        forall|j: int| 0 <= j < i ==> s[j] != sep,
    ensures
        spec_split(s, sep) =~= seq![s.take(i)] + spec_split(s.skip(i + 1), sep),
    decreases i,
{
    if i == 0 {
        assert(s.take(0) =~= Seq::<char>::empty());
    } else {
        let t = s.skip(1);
        assert(t[i - 1] == sep);
        lemma_split_at(t, sep, i - 1);
        lemma_split_nonempty(t.skip(i), sep);
        assert(t.take(i - 1) =~= s.take(i).skip(1));
        assert(t.skip(i) =~= s.skip(i + 1));
        assert(seq![s[0]] + s.take(i).skip(1) =~= s.take(i));
        assert(spec_split(s, sep) =~= seq![s.take(i)] + spec_split(s.skip(i + 1), sep));
    }
}

/// `spec_split` of a separator-free input is that input alone.
proof fn lemma_split_none(s: Seq<char>, sep: char)
    requires
        forall|j: int| 0 <= j < s.len() ==> s[j] != sep,
    ensures
        spec_split(s, sep) =~= seq![s],
    decreases s.len(),
{
    if s.len() == 0 {
        assert(s =~= Seq::<char>::empty());
    } else {
        lemma_split_none(s.skip(1), sep);
        let rest = spec_split(s.skip(1), sep);
        assert(rest =~= seq![s.skip(1)]);
        assert(seq![s[0]] + s.skip(1) =~= s);
        assert(spec_split(s, sep) == rest.update(0, seq![s[0]] + rest[0]));
        assert(rest.update(0, seq![s[0]] + rest[0]) =~= seq![s]);
    }
}

/// Splits `s` on `sep`, exactly as `spec_split` describes.
pub fn split_char(s: &str, sep: char) -> (r: Vec<String>)
    ensures
        r@.map_values(|t: String| t@) =~= spec_split(s@, sep),
        r@.len() >= 1,
{
    let len = s.unicode_len();
    let mut out: Vec<String> = Vec::new();
    let mut p: usize = 0;
    proof {
        assert(s@.skip(0) =~= s@);
        assert(out@.map_values(|t: String| t@) =~= Seq::<Seq<char>>::empty());
    }
    loop
        invariant
            0 <= p <= len,
            len == s@.len(),
            spec_split(s@, sep) =~= out@.map_values(|t: String| t@) + spec_split(
                s@.skip(p as int),
                sep,
            ),
        decreases len - p,
    {
        match find_char_from(s, p, sep) {
            Some(i) => {
                let seg = s.substring_char(p, i);
                out.push(String::from_str(seg));
                proof {
                    let tail = s@.skip(p as int);
                    assert(tail[i - p] == sep);
                    assert forall|j: int| 0 <= j < i - p implies tail[j] != sep by {
                        assert(tail[j] == s@[p + j]);
                    }
                    lemma_split_at(tail, sep, i - p);
                    assert(tail.take(i - p) =~= s@.subrange(p as int, i as int));
                    assert(tail.skip(i - p + 1) =~= s@.skip(i + 1));
                    assert(out@.map_values(|t: String| t@) =~= out@.drop_last().map_values(
                        |t: String| t@,
                    ).push(s@.subrange(p as int, i as int)));
                }
                p = i + 1;
            },
            None => {
                let seg = s.substring_char(p, len);
                out.push(String::from_str(seg));
                proof {
                    let tail = s@.skip(p as int);
                    lemma_split_none(tail, sep);
                    assert(tail =~= s@.subrange(p as int, len as int));
                    assert(out@.map_values(|t: String| t@) =~= out@.drop_last().map_values(
                        |t: String| t@,
                    ).push(s@.subrange(p as int, len as int)));
                    lemma_split_nonempty(s@, sep);
                }
                return out;
            },
        }
    }
}

/// Splits `t` at the first occurrence of `c` into the part before and
/// the part after; a text without `c` yields nothing.
pub open spec fn split_first(t: Seq<char>, c: char) -> Option<(Seq<char>, Seq<char>)>
    decreases t.len(),
{
    if t.len() == 0 {
        None
    } else if t[0] == c {
        Some((Seq::empty(), t.skip(1)))
    } else {
        match split_first(t.skip(1), c) {
            None => None,
            Some(p) => Some((seq![t[0]] + p.0, p.1)),
        }
    }
}

/// Unfolds `split_first` at the first occurrence position.
pub proof fn lemma_split_first_at(t: Seq<char>, c: char, i: int)
    requires
        0 <= i < t.len(),
        t[i] == c,
        forall|j: int| 0 <= j < i ==> t[j] != c,
    ensures
        split_first(t, c) == Some((t.take(i), t.skip(i + 1))),
    decreases i,
{
    if i == 0 {
        assert(t.take(0) =~= Seq::<char>::empty());
    } else {
        let u = t.skip(1);
        assert(u[i - 1] == c);
        lemma_split_first_at(u, c, i - 1);
        assert(u.take(i - 1) =~= t.take(i).skip(1));
        assert(u.skip(i) =~= t.skip(i + 1));
        assert(seq![t[0]] + t.take(i).skip(1) =~= t.take(i));
    }
}

/// `split_first` of a text without the separator yields nothing.
pub proof fn lemma_split_first_none(t: Seq<char>, c: char)
    requires
        forall|j: int| 0 <= j < t.len() ==> t[j] != c,
    ensures
        split_first(t, c) is None,
    decreases t.len(),
{
    if t.len() > 0 {
        lemma_split_first_none(t.skip(1), c);
    }
}

/// `s` with every non-overlapping occurrence of `pat` replaced by `rep`,
/// scanning left to right; an empty pattern leaves `s` unchanged.
pub open spec fn spec_replace(s: Seq<char>, pat: Seq<char>, rep: Seq<char>) -> Seq<char>
    decreases s.len(),
{
    if pat.len() == 0 || s.len() < pat.len() {
        s
    } else if s.take(pat.len() as int) == pat {
        rep + spec_replace(s.skip(pat.len() as int), pat, rep)
    } else {
        seq![s[0]] + spec_replace(s.skip(1), pat, rep)
    }
}

/// Whether `pat` occurs in `s` starting at position `i`.
fn matches_at(s: &str, i: usize, pat: &str) -> (r: bool)
    requires
        i <= s@.len(),
        i + pat@.len() <= s@.len(),
    ensures
        r == (s@.subrange(i as int, i + pat@.len()) =~= pat@),
{
    let sl = s.unicode_len();
    let pl = pat.unicode_len();
    let mut j: usize = 0;
    while j < pl
        invariant
            0 <= j <= pl,
            pl == pat@.len(),
            sl == s@.len(),
            i + pl <= sl,
            forall|k: int| 0 <= k < j ==> s@[i + k] == pat@[k],
        decreases pl - j,
    {
        if s.get_char(i + j) != pat.get_char(j) {
            proof {
                assert(s@.subrange(i as int, i + pat@.len())[j as int] != pat@[j as int]);
            }
            return false;
        }
        j = j + 1;
    }
    proof {
        assert(s@.subrange(i as int, i + pat@.len()) =~= pat@);
    }
    true
}

/// Replaces every occurrence of `pat` in `s` by `rep`, exactly as
/// `spec_replace` describes.
pub fn str_replace(s: &str, pat: &str, rep: &str) -> (r: String)
    ensures
        r@ == spec_replace(s@, pat@, rep@),
{
    let len = s.unicode_len();
    let pl = pat.unicode_len();
    if pl == 0 {
        proof {
            assert(pat@.len() == 0);
        }
        return String::from_str(s);
    }
    let mut out = String::new();
    let mut i: usize = 0;
    proof {
        assert(s@.skip(0) =~= s@);
    }
    while i < len
        invariant
            0 <= i <= len,
            len == s@.len(),
            pl == pat@.len(),
            pl >= 1,
            spec_replace(s@, pat@, rep@) == out@ + spec_replace(s@.skip(i as int), pat@, rep@),
        decreases len - i,
    {
        if pl <= len - i && matches_at(s, i, pat) {
            out.append(rep);
            proof {
                let tail = s@.skip(i as int);
                assert(tail.take(pl as int) =~= s@.subrange(i as int, i + pl));
                assert(tail.skip(pl as int) =~= s@.skip(i + pl));
            }
            i = i + pl;
        } else {
            let c = s.substring_char(i, i + 1);
            out.append(c);
            proof {
                let tail = s@.skip(i as int);
                if tail.len() >= pl {
                    assert(tail.take(pl as int) =~= s@.subrange(i as int, i + pl));
                }
                assert(seq![tail[0]] =~= s@.subrange(i as int, i + 1));
                assert(tail.skip(1) =~= s@.skip(i + 1));
            }
            i = i + 1;
        }
    }
    proof {
        assert(s@.skip(len as int) =~= Seq::<char>::empty());
    }
    out
}

} // verus!
