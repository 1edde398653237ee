//! Character and string utilities shared by the tokenizer, parser and
//! renderer: whitespace trimming, prefix/suffix stripping, splitting and
//! two-character pattern search, each with an exact specification.
use vstd::prelude::*;

verus! {

/// The Unicode White_Space characters, as recognised by `char::is_whitespace`.
pub open spec fn is_ws_char(c: char) -> bool {
    c == ' ' || c == '\t' || c == '\n' || c == '\u{0B}' || c == '\u{0C}' || c == '\r' || c
        == '\u{85}' || c == '\u{A0}' || c == '\u{1680}' || (c >= '\u{2000}' && c <= '\u{200A}') || c
        == '\u{2028}' || c == '\u{2029}' || c == '\u{202F}' || c == '\u{205F}' || c == '\u{3000}'
}

pub fn is_ws(c: char) -> (r: bool)
    ensures
        r == is_ws_char(c),
{
    c == ' ' || c == '\t' || c == '\n' || c == '\u{0B}' || c == '\u{0C}' || c == '\r' || c
        == '\u{85}' || c == '\u{A0}' || c == '\u{1680}' || (c >= '\u{2000}' && c <= '\u{200A}') || c
        == '\u{2028}' || c == '\u{2029}' || c == '\u{202F}' || c == '\u{205F}' || c == '\u{3000}'
}

/// String equality over the character views.
pub fn str_eq(a: &str, b: &str) -> (r: bool)
    ensures
        r == (a@ == b@),
{
    let an = a.unicode_len();
    let bn = b.unicode_len();
    if an != bn {
        return false;
    }
    let mut i: usize = 0;
    while i < an
        invariant
            an == a@.len(),
            an == b@.len(),
            0 <= i <= an,
            forall|j: int| 0 <= j < i ==> a@[j] == b@[j],
        decreases an - i,
    {
        if a.get_char(i) != b.get_char(i) {
            return false;
        }
        i = i + 1;
    }
    assert(a@ =~= b@);
    true
}

/// `p` is a prefix of `s`.
pub open spec fn is_prefix_of(p: Seq<char>, s: Seq<char>) -> bool {
    p.len() <= s.len() && s.subrange(0, p.len() as int) == p
}

/// `p` is a suffix of `s`.
pub open spec fn is_suffix_of(p: Seq<char>, s: Seq<char>) -> bool {
    p.len() <= s.len() && s.subrange(s.len() - p.len(), s.len() as int) == p
}

pub fn starts_with_str(s: &str, p: &str) -> (r: bool)
    ensures
        r == is_prefix_of(p@, s@),
{
    let n = s.unicode_len();
    let pn = p.unicode_len();
    if pn > n {
        return false;
    }
    str_eq(s.substring_char(0, pn), p)
}

/// The remainder of `s` after a prefix of length `k`.
pub fn skip_chars<'a>(s: &'a str, k: usize) -> (r: &'a str)
    requires
        k <= s@.len(),
    ensures
        r@ == s@.skip(k as int),
{
    let n = s.unicode_len();
    let r = s.substring_char(k, n);
    assert(r@ =~= s@.skip(k as int));
    r
}

/// Leading whitespace removed.
pub open spec fn spec_trim_start(s: Seq<char>) -> Seq<char>
    decreases s.len(),
{
    if s.len() > 0 && is_ws_char(s[0]) {
        spec_trim_start(s.drop_first())
    } else {
        s
    }
}

/// Trailing whitespace removed.
pub open spec fn spec_trim_end(s: Seq<char>) -> Seq<char>
    decreases s.len(),
{
    if s.len() > 0 && is_ws_char(s[s.len() - 1]) {
        spec_trim_end(s.drop_last())
    } else {
        s
    }
}

/// Whitespace removed from both ends, as `str::trim` does.
pub open spec fn spec_trim(s: Seq<char>) -> Seq<char> {
    spec_trim_start(spec_trim_end(s))
}

pub fn trim_str<'a>(s: &'a str) -> (r: &'a str)
    ensures
        r@ == spec_trim(s@),
{
    let n = s.unicode_len();
    proof {
        assert(s@.take(n as int) =~= s@);
    }
    let mut b: usize = n;
    while b > 0 && is_ws(s.get_char(b - 1))
        invariant
            n == s@.len(),
            0 <= b <= n,
            spec_trim_end(s@) == spec_trim_end(s@.take(b as int)),
        decreases b,
    {
        assert(s@.take(b as int).drop_last() =~= s@.take(b - 1));
        b = b - 1;
    }
    assert(spec_trim_end(s@) == s@.take(b as int)) by {
        assert(b == 0 ==> s@.take(b as int) =~= Seq::<char>::empty());
    }
    let mut a: usize = 0;
    while a < b && is_ws(s.get_char(a))
        invariant
            n == s@.len(),
            0 <= a <= b <= n,
            spec_trim_end(s@) == s@.take(b as int),
            spec_trim_start(s@.take(b as int)) == spec_trim_start(s@.subrange(a as int, b as int)),
        decreases b - a,
    {
        assert(s@.subrange(a as int, b as int).drop_first() =~= s@.subrange(a + 1, b as int));
        assert(s@.subrange(a as int, b as int)[0] == s@[a as int]);
        a = a + 1;
    }
    let r = s.substring_char(a, b);
    assert(r@ == spec_trim(s@)) by {
        assert(r@ =~= s@.subrange(a as int, b as int));
        if a < b {
            assert(!is_ws_char(s@.subrange(a as int, b as int)[0]));
        } else {
            assert(s@.subrange(a as int, b as int) =~= Seq::<char>::empty());
        }
    }
    r
}

/// Every copy of the prefix `p` removed from the front of `s`, repeatedly,
/// as `str::trim_start_matches` does.
pub open spec fn srep_prefix(s: Seq<char>, p: Seq<char>) -> Seq<char>
    decreases s.len(),
{
    if p.len() > 0 && is_prefix_of(p, s) {
        srep_prefix(s.skip(p.len() as int), p)
    } else {
        s
    }
}

/// Every copy of the suffix `p` removed from the end of `s`, repeatedly,
/// as `str::trim_end_matches` does.
pub open spec fn srep_suffix(s: Seq<char>, p: Seq<char>) -> Seq<char>
    decreases s.len(),
{
    if p.len() > 0 && is_suffix_of(p, s) {
        srep_suffix(s.take(s.len() - p.len()), p)
    } else {
        s
    }
}

pub fn strip_prefix_rep<'a>(s: &'a str, p: &str) -> (r: &'a str)
    requires
        p@.len() >= 1,
    ensures
        r@ == srep_prefix(s@, p@),
{
    let n = s.unicode_len();
    let pn = p.unicode_len();
    proof {
        assert(s@.skip(0) =~= s@);
    }
    let mut lo: usize = 0;
    loop
        invariant
            n == s@.len(),
            pn == p@.len(),
            pn >= 1,
            0 <= lo <= n,
            srep_prefix(s@, p@) == srep_prefix(s@.skip(lo as int), p@),
        ensures
            0 <= lo <= n,
            srep_prefix(s@, p@) == s@.subrange(lo as int, n as int),
        decreases n - lo,
    {
        if pn <= n - lo && str_eq(s.substring_char(lo, lo + pn), p) {
            assert(s@.skip(lo as int).subrange(0, pn as int) =~= s@.subrange(
                lo as int,
                lo + pn as int,
            ));
            assert(s@.skip(lo as int).skip(pn as int) =~= s@.skip(lo + pn as int));
            lo = lo + pn;
        } else {
            assert(srep_prefix(s@.skip(lo as int), p@) == s@.skip(lo as int)) by {
                if pn <= n - lo {
                    assert(s@.skip(lo as int).subrange(0, pn as int) =~= s@.subrange(
                        lo as int,
                        lo + pn as int,
                    ));
                }
            }
            assert(s@.skip(lo as int) =~= s@.subrange(lo as int, n as int));
            break ;
        }
    }
    s.substring_char(lo, n)
}

pub fn strip_suffix_rep<'a>(s: &'a str, p: &str) -> (r: &'a str)
    requires
        p@.len() >= 1,
    ensures
        r@ == srep_suffix(s@, p@),
{
    let n = s.unicode_len();
    let pn = p.unicode_len();
    proof {
        assert(s@.take(n as int) =~= s@);
    }
    let mut hi: usize = n;
    loop
        invariant
            n == s@.len(),
            pn == p@.len(),
            pn >= 1,
            0 <= hi <= n,
            srep_suffix(s@, p@) == srep_suffix(s@.take(hi as int), p@),
        ensures
            0 <= hi <= n,
            srep_suffix(s@, p@) == s@.subrange(0, hi as int),
        decreases hi,
    {
        if pn <= hi && str_eq(s.substring_char(hi - pn, hi), p) {
            assert(s@.take(hi as int).subrange(hi - pn, hi as int) =~= s@.subrange(
                hi - pn,
                hi as int,
            ));
            assert(s@.take(hi as int).take(hi - pn) =~= s@.take(hi - pn));
            hi = hi - pn;
        } else {
            assert(srep_suffix(s@.take(hi as int), p@) == s@.take(hi as int)) by {
                if pn <= hi {
                    assert(s@.take(hi as int).subrange(hi - pn, hi as int) =~= s@.subrange(
                        hi - pn,
                        hi as int,
                    ));
                }
            }
            assert(s@.take(hi as int) =~= s@.subrange(0, hi as int));
            break ;
        }
    }
    let r = s.substring_char(0, hi);
    assert(r@ =~= s@.subrange(0, hi as int));
    r
}

/// Every copy of the character `c` removed from the front.
pub open spec fn strip_char_start(s: Seq<char>, c: char) -> Seq<char>
    decreases s.len(),
{
    if s.len() > 0 && s[0] == c {
        strip_char_start(s.drop_first(), c)
    } else {
        s
    }
}

/// Every copy of the character `c` removed from the end.
pub open spec fn strip_char_end(s: Seq<char>, c: char) -> Seq<char>
    decreases s.len(),
{
    if s.len() > 0 && s[s.len() - 1] == c {
        strip_char_end(s.drop_last(), c)
    } else {
        s
    }
}

/// Every copy of `c` removed from both ends, as `str::trim_matches` does.
pub open spec fn spec_trim_char(s: Seq<char>, c: char) -> Seq<char> {
    strip_char_start(strip_char_end(s, c), c)
}

pub fn trim_char<'a>(s: &'a str, c: char) -> (r: &'a str)
    ensures
        r@ == spec_trim_char(s@, c),
{
    let n = s.unicode_len();
    proof {
        assert(s@.take(n as int) =~= s@);
    }
    let mut b: usize = n;
    while b > 0 && s.get_char(b - 1) == c
        invariant
            n == s@.len(),
            0 <= b <= n,
            strip_char_end(s@, c) == strip_char_end(s@.take(b as int), c),
        decreases b,
    {
        assert(s@.take(b as int).drop_last() =~= s@.take(b - 1));
        b = b - 1;
    }
    assert(strip_char_end(s@, c) == s@.take(b as int)) by {
        assert(b == 0 ==> s@.take(b as int) =~= Seq::<char>::empty());
    }
    let mut a: usize = 0;
    while a < b && s.get_char(a) == c
        invariant
            n == s@.len(),
            0 <= a <= b <= n,
            strip_char_end(s@, c) == s@.take(b as int),
            strip_char_start(s@.take(b as int), c) == strip_char_start(
                s@.subrange(a as int, b as int),
                c,
            ),
        decreases b - a,
    {
        assert(s@.subrange(a as int, b as int).drop_first() =~= s@.subrange(a + 1, b as int));
        assert(s@.subrange(a as int, b as int)[0] == s@[a as int]);
        a = a + 1;
    }
    let r = s.substring_char(a, b);
    assert(r@ == spec_trim_char(s@, c)) by {
        assert(r@ =~= s@.subrange(a as int, b as int));
        if a < b {
            assert(s@.subrange(a as int, b as int)[0] == s@[a as int]);
        } else {
            assert(s@.subrange(a as int, b as int) =~= Seq::<char>::empty());
        }
    }
    r
}

/// Splitting on a separator character, written with the piece collected so
/// far as an accumulator: the pieces of `cur + s` split on `sep`, where `cur`
/// holds no separator.
pub open spec fn split_acc(cur: Seq<char>, s: Seq<char>, sep: char) -> Seq<Seq<char>>
    decreases s.len(),
{
    if s.len() == 0 {
        seq![cur]
    } else if s[0] == sep {
        seq![cur] + split_acc(Seq::empty(), s.drop_first(), sep)
    } else {
        split_acc(cur.push(s[0]), s.drop_first(), sep)
    }
}

/// The pieces of `s` split on every occurrence of `sep`, empty pieces kept,
/// as `str::split` yields them.
pub open spec fn spec_split(s: Seq<char>, sep: char) -> Seq<Seq<char>> {
    split_acc(Seq::empty(), s, sep)
}

pub fn split_str(s: &str, sep: char) -> (r: Vec<String>)
    ensures
        r.deep_view() == spec_split(s@, sep),
{
    let n = s.unicode_len();
    let mut pieces: Vec<String> = Vec::new();
    let mut start: usize = 0;
    let mut i: usize = 0;
    proof {
        assert(s@.skip(0) =~= s@);
        assert(s@.subrange(0, 0) =~= Seq::<char>::empty());
        assert(pieces.deep_view() + split_acc(Seq::empty(), s@, sep) =~= split_acc(
            Seq::empty(),
            s@,
            sep,
        ));
    }
    while i < n
        invariant
            n == s@.len(),
            0 <= start <= i <= n,
            forall|j: int| start <= j < i ==> s@[j] != sep,
            spec_split(s@, sep) == pieces.deep_view() + split_acc(
                s@.subrange(start as int, i as int),
                s@.skip(i as int),
                sep,
            ),
        decreases n - i,
    {
        if s.get_char(i) == sep {
            let piece = s.substring_char(start, i).to_owned();
            let ghost pdv = pieces.deep_view();
            proof {
                assert(s@.skip(i as int)[0] == s@[i as int]);
                assert(s@.skip(i as int).drop_first() =~= s@.skip(i + 1));
                assert(s@.subrange(i + 1, i + 1) =~= Seq::<char>::empty());
            }
            pieces.push(piece);
            proof {
                assert(pieces.deep_view() =~= pdv.push(piece@));
                assert(pdv.push(piece@) =~= pdv + seq![piece@]);
                assert((pdv + seq![piece@]) + split_acc(Seq::empty(), s@.skip(i + 1), sep) =~= pdv
                    + (seq![piece@] + split_acc(Seq::empty(), s@.skip(i + 1), sep)));
            }
            start = i + 1;
            i = i + 1;
        } else {
            proof {
                assert(s@.skip(i as int)[0] == s@[i as int]);
                assert(s@.skip(i as int).drop_first() =~= s@.skip(i + 1));
                assert(s@.subrange(start as int, i as int).push(s@[i as int]) =~= s@.subrange(
                    start as int,
                    i + 1,
                ));
            }
            i = i + 1;
        }
    }
    let last = s.substring_char(start, n).to_owned();
    let ghost pdv = pieces.deep_view();
    proof {
        assert(s@.skip(n as int) =~= Seq::<char>::empty());
    }
    pieces.push(last);
    proof {
        assert(pieces.deep_view() =~= pdv.push(last@));
        assert(pdv.push(last@) =~= pdv + seq![s@.subrange(start as int, n as int)]);
    }
    pieces
}

/// Splitting on whitespace runs, with the word collected so far as an
/// accumulator: the words of `cur + s`, where `cur` holds no whitespace.
pub open spec fn split_ws_acc(cur: Seq<char>, s: Seq<char>) -> Seq<Seq<char>>
    decreases s.len(),
{
    if s.len() == 0 {
        if cur.len() == 0 {
            Seq::empty()
        } else {
            seq![cur]
        }
    } else if is_ws_char(s[0]) {
        if cur.len() == 0 {
            split_ws_acc(Seq::empty(), s.drop_first())
        } else {
            seq![cur] + split_ws_acc(Seq::empty(), s.drop_first())
        }
    } else {
        split_ws_acc(cur.push(s[0]), s.drop_first())
    }
}

/// The words of `s`, as `str::split_whitespace` yields them: maximal runs of
/// non-whitespace characters, never empty.
pub open spec fn spec_split_ws(s: Seq<char>) -> Seq<Seq<char>> {
    split_ws_acc(Seq::empty(), s)
}

pub fn split_ws_str(s: &str) -> (r: Vec<String>)
    ensures
        r.deep_view() == spec_split_ws(s@),
{
    let n = s.unicode_len();
    let mut pieces: Vec<String> = Vec::new();
    let mut start: usize = 0;
    let mut i: usize = 0;
    proof {
        assert(s@.skip(0) =~= s@);
        assert(s@.subrange(0, 0) =~= Seq::<char>::empty());
        assert(pieces.deep_view() + split_ws_acc(Seq::empty(), s@) =~= split_ws_acc(
            Seq::empty(),
            s@,
        ));
    }
    while i < n
        invariant
            n == s@.len(),
            0 <= start <= i <= n,
            forall|j: int| start <= j < i ==> !is_ws_char(s@[j]),
            spec_split_ws(s@) == pieces.deep_view() + split_ws_acc(
                s@.subrange(start as int, i as int),
                s@.skip(i as int),
            ),
        decreases n - i,
    {
        proof {
            assert(s@.skip(i as int)[0] == s@[i as int]);
            assert(s@.skip(i as int).drop_first() =~= s@.skip(i + 1));
        }
        if is_ws(s.get_char(i)) {
            if i > start {
                let piece = s.substring_char(start, i).to_owned();
                let ghost pdv = pieces.deep_view();
                pieces.push(piece);
                proof {
                    assert(pieces.deep_view() =~= pdv.push(piece@));
                    assert(pdv.push(piece@) =~= pdv + seq![piece@]);
                    assert((pdv + seq![piece@]) + split_ws_acc(Seq::empty(), s@.skip(i + 1)) =~= pdv
                        + (seq![piece@] + split_ws_acc(Seq::empty(), s@.skip(i + 1))));
                }
            } else {
                assert(s@.subrange(start as int, i as int) =~= Seq::<char>::empty());
            }
            proof {
                assert(s@.subrange(i + 1, i + 1) =~= Seq::<char>::empty());
            }
            start = i + 1;
            i = i + 1;
        } else {
            proof {
                assert(s@.subrange(start as int, i as int).push(s@[i as int]) =~= s@.subrange(
                    start as int,
                    i + 1,
                ));
            }
            i = i + 1;
        }
    }
    proof {
        assert(s@.skip(n as int) =~= Seq::<char>::empty());
    }
    if n > start {
        let last = s.substring_char(start, n).to_owned();
        let ghost pdv = pieces.deep_view();
        pieces.push(last);
        proof {
            assert(pieces.deep_view() =~= pdv.push(last@));
            assert(pdv.push(last@) =~= pdv + seq![s@.subrange(start as int, n as int)]);
        }
    } else {
        assert(s@.subrange(start as int, n as int) =~= Seq::<char>::empty());
        assert(pieces.deep_view() =~= pieces.deep_view() + Seq::<Seq<char>>::empty());
    }
    pieces
}

/// A split always yields at least one piece.
pub proof fn lemma_split_acc_nonempty(cur: Seq<char>, s: Seq<char>, sep: char)
    ensures
        split_acc(cur, s, sep).len() >= 1,
    decreases s.len(),
{
    if s.len() != 0 {
        if s[0] == sep {
            lemma_split_acc_nonempty(Seq::empty(), s.drop_first(), sep);
        } else {
            lemma_split_acc_nonempty(cur.push(s[0]), s.drop_first(), sep);
        }
    }
}

/// The least position `j` at or after `from` where the two characters `a`,
/// `b` stand adjacent in `s`; nothing when there is none.
pub open spec fn spec_find2(s: Seq<char>, from: int, a: char, b: char) -> Option<int>
    decreases s.len() - from,
{
    if from < 0 || from + 1 >= s.len() {
        None
    } else if s[from] == a && s[from + 1] == b {
        Some(from)
    } else {
        spec_find2(s, from + 1, a, b)
    }
}

pub proof fn lemma_find2_props(s: Seq<char>, from: int, a: char, b: char)
    requires
        0 <= from,
    ensures
        match spec_find2(s, from, a, b) {
            Some(j) => from <= j && j + 1 < s.len() && s[j] == a && s[j + 1] == b,
            None => true,
        },
    decreases s.len() - from,
{
    if from + 1 >= s.len() {
    } else if s[from] == a && s[from + 1] == b {
    } else {
        lemma_find2_props(s, from + 1, a, b);
    }
}

pub fn find2(s: &str, from: usize, a: char, b: char) -> (r: Option<usize>)
    ensures
        match r {
            Some(j) => spec_find2(s@, from as int, a, b) == Some(j as int),
            None => spec_find2(s@, from as int, a, b) is None,
        },
{
    let n = s.unicode_len();
    let mut i: usize = from;
    while i < n && i + 1 < n
        invariant
            n == s@.len(),
            from <= i,
            spec_find2(s@, from as int, a, b) == spec_find2(s@, i as int, a, b),
        decreases n - i,
    {
        if s.get_char(i) == a && s.get_char(i + 1) == b {
            return Some(i);
        }
        i = i + 1;
    }
    None
}

} // verus!
