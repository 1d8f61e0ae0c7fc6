use vstd::prelude::*;
use vstd::std_specs::iter::IteratorSpec;

verus! {

/// Unicode White_Space, the set that `char::is_whitespace` tests.
pub open spec fn is_ws(c: char) -> bool {
    ('\u{9}' <= c && c <= '\u{d}') || c == ' ' || c == '\u{85}' || c == '\u{a0}' || c == '\u{1680}'
        || ('\u{2000}' <= c && c <= '\u{200a}') || c == '\u{2028}' || c == '\u{2029}' || c
        == '\u{202f}' || c == '\u{205f}' || c == '\u{3000}'
}

pub fn is_whitespace(c: char) -> (r: bool)
    ensures
        r == is_ws(c),
{
    ('\u{9}' <= c && c <= '\u{d}') || c == ' ' || c == '\u{85}' || c == '\u{a0}' || c == '\u{1680}'
        || ('\u{2000}' <= c && c <= '\u{200a}') || c == '\u{2028}' || c == '\u{2029}' || c
        == '\u{202f}' || c == '\u{205f}' || c == '\u{3000}'
}

/// `s` without its leading whitespace.
pub open spec fn trim_start(s: Seq<char>) -> Seq<char>
    decreases s.len(),
{
    if s.len() > 0 && is_ws(s[0]) {
        trim_start(s.drop_first())
    } else {
        s
    }
}

/// `s` without its trailing whitespace.
pub open spec fn trim_end(s: Seq<char>) -> Seq<char>
    decreases s.len(),
{
    if s.len() > 0 && is_ws(s.last()) {
        trim_end(s.drop_last())
    } else {
        s
    }
}

pub open spec fn trim(s: Seq<char>) -> Seq<char> {
    trim_end(trim_start(s))
}

pub open spec fn starts_with(s: Seq<char>, p: Seq<char>) -> bool {
    p.len() <= s.len() && s.subrange(0, p.len() as int) == p
}

/// `p` occurs in `s` at position `i`.
pub open spec fn occurs_at(s: Seq<char>, p: Seq<char>, i: int) -> bool {
    0 <= i && i + p.len() <= s.len() && s.subrange(i, i + p.len()) == p
}

pub open spec fn contains(s: Seq<char>, p: Seq<char>) -> bool {
    exists|i: int| occurs_at(s, p, i)
}

/// The position of the first `c` in `s`, if any.
pub open spec fn find_char(s: Seq<char>, c: char) -> Option<int>
    decreases s.len(),
{
    if s.len() == 0 {
        None
    } else if s[0] == c {
        Some(0)
    } else {
        match find_char(s.drop_first(), c) {
            Some(i) => Some(i + 1),
            None => None,
        }
    }
}

/// Every non-overlapping occurrence of `pat` in `s`, taken from the left, replaced by `rep`.
pub open spec fn replace(s: Seq<char>, pat: Seq<char>, rep: Seq<char>) -> Seq<char>
    decreases s.len(),
{
    if s.len() == 0 {
        s
    } else if pat.len() > 0 && starts_with(s, pat) {
        rep + replace(s.subrange(pat.len() as int, s.len() as int), pat, rep)
    } else {
        seq![s[0]] + replace(s.drop_first(), pat, rep)
    }
}

/// The pieces of `parts` with `sep` between each two.
pub open spec fn join(parts: Seq<Seq<char>>, sep: Seq<char>) -> Seq<char>
    decreases parts.len(),
{
    if parts.len() == 0 {
        Seq::empty()
    } else if parts.len() == 1 {
        parts[0]
    } else {
        join(parts.drop_last(), sep) + sep + parts.last()
    }
}

/// Words of `s` read so far, and the word being read.
pub open spec fn words_scan(s: Seq<char>) -> (Seq<Seq<char>>, Seq<char>)
    decreases s.len(),
{
    if s.len() == 0 {
        (Seq::empty(), Seq::empty())
    } else {
        let (done, cur) = words_scan(s.drop_last());
        let c = s.last();
        if is_ws(c) {
            if cur.len() > 0 {
                (done.push(cur), Seq::empty())
            } else {
                (done, cur)
            }
        } else {
            (done, cur.push(c))
        }
    }
}

/// The maximal runs of non-whitespace characters of `s`, in order.
pub open spec fn words(s: Seq<char>) -> Seq<Seq<char>> {
    let (done, cur) = words_scan(s);
    if cur.len() > 0 {
        done.push(cur)
    } else {
        done
    }
}

/// Name for what `str::to_lowercase` returns.
pub uninterp spec fn lower_of(s: Seq<char>) -> Seq<char>;

/// Relies on `str::to_lowercase`: its result depends on the characters alone.
#[verifier::external_body]
pub fn lowercase(s: &str) -> (r: String)
    ensures
        r@ == lower_of(s@),
{
    s.to_lowercase()
}

/// The characters of `s`, in order.
pub fn chars_of(s: &str) -> (r: Vec<char>)
    ensures
        r@ == s@,
{
    broadcast use vstd::string::group_string_axioms;

    let mut it = s.chars();
    let mut r: Vec<char> = Vec::new();
    loop
        invariant_except_break
            it.obeys_prophetic_iter_laws(),
            it.decrease() is Some,
            r@ + it.remaining() == s@,
        ensures
            r@ == s@,
        decreases it.decrease()->0,
    {
        let ghost before = it.remaining();
        match it.next() {
            Some(c) => {
                r.push(c);
                proof {
                    assert(r@ + it.remaining() =~= s@);
                }
            },
            None => {
                proof {
                    assert(before.len() == 0);
                    assert(r@ =~= s@);
                }
                break;
            },
        }
    }
    r
}

/// Relies on `FromIterator<char>` for `String`: the characters of `v`, in order.
#[verifier::external_body]
pub fn string_of(v: &[char]) -> (r: String)
    ensures
        r@ == v@,
{
    v.iter().collect()
}

pub proof fn lemma_subrange_drop_last(s: Seq<char>, i: int)
    requires
        0 < i <= s.len(),
    ensures
        s.subrange(0, i).drop_last() == s.subrange(0, i - 1),
        s.subrange(0, i).last() == s[i - 1],
{
    assert(s.subrange(0, i).drop_last() =~= s.subrange(0, i - 1));
}

/// The characters of `v[lo..hi]`, in a new vector.
pub fn slice_vec(v: &[char], lo: usize, hi: usize) -> (r: Vec<char>)
    requires
        lo <= hi <= v@.len(),
    ensures
        r@ == v@.subrange(lo as int, hi as int),
{
    let mut r: Vec<char> = Vec::new();
    let mut i: usize = lo;
    while i < hi
        invariant
            lo <= i <= hi <= v@.len(),
            r@ == v@.subrange(lo as int, i as int),
        decreases hi - i,
    {
        r.push(v[i]);
        proof {
            assert(v@.subrange(lo as int, i + 1) =~= v@.subrange(lo as int, i as int).push(v@[i as int]));
        }
        i = i + 1;
    }
    r
}

proof fn lemma_trim_start_skip(s: Seq<char>, i: int)
    requires
        0 <= i <= s.len(),
        forall|j: int| 0 <= j < i ==> is_ws(#[trigger] s[j]),
    ensures
        trim_start(s) == trim_start(s.subrange(i, s.len() as int)),
    decreases i,
{
    if i > 0 {
        lemma_trim_start_skip(s.drop_first(), i - 1);
        assert(s.drop_first().subrange(i - 1, s.len() - 1) =~= s.subrange(i, s.len() as int));
    } else {
        assert(s.subrange(0, s.len() as int) =~= s);
    }
}

proof fn lemma_trim_end_cut(s: Seq<char>, k: int)
    requires
        0 <= k <= s.len(),
        forall|j: int| k <= j < s.len() ==> is_ws(#[trigger] s[j]),
    ensures
        trim_end(s) == trim_end(s.subrange(0, k)),
    decreases s.len() - k,
{
    if k < s.len() {
        lemma_trim_end_cut(s.drop_last(), k);
        assert(s.drop_last().subrange(0, k) =~= s.subrange(0, k));
    } else {
        assert(s.subrange(0, k) =~= s);
    }
}

/// The characters of `v` without leading and trailing whitespace.
pub fn trim_chars(v: &[char]) -> (r: Vec<char>)
    ensures
        r@ == trim(v@),
{
    let mut lo: usize = 0;
    while lo < v.len() && is_whitespace(v[lo])
        invariant
            lo <= v@.len(),
            forall|j: int| 0 <= j < lo ==> is_ws(#[trigger] v@[j]),
        decreases v@.len() - lo,
    {
        lo = lo + 1;
    }
    let ghost rest = v@.subrange(lo as int, v@.len() as int);
    proof {
        lemma_trim_start_skip(v@, lo as int);
        if rest.len() > 0 {
            assert(rest[0] == v@[lo as int]);
        }
        assert(trim_start(rest) == rest);
    }
    let mut hi: usize = v.len();
    while hi > lo && is_whitespace(v[hi - 1])
        invariant
            lo <= hi <= v.len(),
            forall|j: int| hi <= j < v.len() ==> is_ws(#[trigger] v@[j]),
        decreases hi,
    {
        hi = hi - 1;
    }
    proof {
        let k = hi - lo;
        assert forall|j: int| k <= j < rest.len() implies is_ws(#[trigger] rest[j]) by {
            assert(rest[j] == v@[lo + j]);
        }
        lemma_trim_end_cut(rest, k);
        let cut = rest.subrange(0, k);
        assert(cut =~= v@.subrange(lo as int, hi as int));
        if cut.len() > 0 {
            assert(cut.last() == v@[hi - 1]);
        }
    }
    slice_vec(v, lo, hi)
}


/// The views of the vectors in `v`.
pub open spec fn views(v: Seq<Vec<char>>) -> Seq<Seq<char>> {
    v.map_values(|w: Vec<char>| w@)
}

pub proof fn lemma_views_push(v: Seq<Vec<char>>, w: Vec<char>)
    ensures
        views(v.push(w)) == views(v).push(w@),
{
    assert(views(v.push(w)) =~= views(v).push(w@));
}

/// Appends the characters of `s` to `out`.
pub fn push_all(out: &mut Vec<char>, s: &[char])
    ensures
        final(out)@ == old(out)@ + s@,
{
    let mut i: usize = 0;
    while i < s.len()
        invariant
            i <= s@.len(),
            out@ == old(out)@ + s@.subrange(0, i as int),
        decreases s@.len() - i,
    {
        out.push(s[i]);
        proof {
            assert(s@.subrange(0, i + 1) =~= s@.subrange(0, i as int).push(s@[i as int]));
        }
        i = i + 1;
    }
    proof {
        assert(s@.subrange(0, i as int) =~= s@);
    }
}

/// Whether `p` occurs in `s` at position `i`.
pub fn occurs_at_exec(s: &[char], p: &[char], i: usize) -> (r: bool)
    ensures
        r == occurs_at(s@, p@, i as int),
{
    let n = s.len();
    if i > n || p.len() > n - i {
        return false;
    }
    let mut j: usize = 0;
    while j < p.len()
        invariant
            n == s@.len(),
            i + p@.len() <= s@.len(),
            j <= p@.len(),
            i + j <= s@.len(),
            forall|k: int| 0 <= k < j ==> s@[i + k] == p@[k],
        decreases p@.len() - j,
    {
        if s[i + j] != p[j] {
            proof {
                assert(s@.subrange(i as int, i + p@.len())[j as int] != p@[j as int]);
            }
            return false;
        }
        j = j + 1;
    }
    proof {
        assert(s@.subrange(i as int, i + p@.len()) =~= p@);
    }
    true
}

/// Whether `s` begins with `p`.
pub fn starts_with_exec(s: &[char], p: &[char]) -> (r: bool)
    ensures
        r == starts_with(s@, p@),
{
    occurs_at_exec(s, p, 0)
}

/// Whether `p` occurs anywhere in `s`.
pub fn contains_exec(s: &[char], p: &[char]) -> (r: bool)
    ensures
        r == contains(s@, p@),
{
    if p.len() > s.len() {
        return false;
    }
    let last: usize = s.len() - p.len();
    let mut i: usize = 0;
    loop
        invariant_except_break
            i <= last,
            last == s@.len() - p@.len(),
            forall|k: int| 0 <= k < i ==> !occurs_at(s@, p@, k),
        ensures
            last == s@.len() - p@.len(),
            forall|k: int| 0 <= k <= last ==> !occurs_at(s@, p@, k),
        decreases last - i,
    {
        if occurs_at_exec(s, p, i) {
            return true;
        }
        if i == last {
            break;
        }
        i = i + 1;
    }
    assert forall|k: int| !occurs_at(s@, p@, k) by {
        if k > last {
            assert(k + p@.len() > s@.len());
        }
    }
    false
}

proof fn lemma_find_char_skip(s: Seq<char>, c: char, i: int)
    requires
        0 <= i <= s.len(),
        forall|j: int| 0 <= j < i ==> s[j] != c,
    ensures
        find_char(s, c) == (match find_char(s.subrange(i, s.len() as int), c) {
            Some(k) => Some(k + i),
            None => None,
        }),
    decreases i,
{
    if i > 0 {
        lemma_find_char_skip(s.drop_first(), c, i - 1);
        assert(s.drop_first().subrange(i - 1, s.len() - 1) =~= s.subrange(i, s.len() as int));
    } else {
        assert(s.subrange(0, s.len() as int) =~= s);
    }
}

/// The position of the first `c` in `s`, if any.
pub fn find_char_exec(s: &[char], c: char) -> (r: Option<usize>)
    ensures
        match find_char(s@, c) {
            Some(k) => 0 <= k < s@.len() && r == Some(k as usize),
            None => r is None,
        },
{
    let mut i: usize = 0;
    while i < s.len()
        invariant
            i <= s@.len(),
            forall|j: int| 0 <= j < i ==> s@[j] != c,
        decreases s@.len() - i,
    {
        if s[i] == c {
            proof {
                lemma_find_char_skip(s@, c, i as int);
            }
            return Some(i);
        }
        i = i + 1;
    }
    proof {
        lemma_find_char_skip(s@, c, i as int);
    }
    None
}

/// `s` with every non-overlapping occurrence of `pat`, from the left, replaced by `rep`.
pub fn replace_exec(s: &[char], pat: &[char], rep: &[char]) -> (r: Vec<char>)
    ensures
        r@ == replace(s@, pat@, rep@),
{
    let mut out: Vec<char> = Vec::new();
    let mut i: usize = 0;
    proof {
        assert(s@.subrange(0, s@.len() as int) =~= s@);
        assert(out@ + s@ =~= s@);
        assert(out@ + replace(s@, pat@, rep@) =~= replace(s@, pat@, rep@));
    }
    while i < s.len()
        invariant
            i <= s@.len(),
            out@ + replace(s@.subrange(i as int, s@.len() as int), pat@, rep@) == replace(
                s@,
                pat@,
                rep@,
            ),
        decreases s@.len() - i,
    {
        let ghost rest = s@.subrange(i as int, s@.len() as int);
        if pat.len() > 0 && occurs_at_exec(s, pat, i) {
            proof {
                assert(rest.subrange(0, pat@.len() as int) =~= s@.subrange(
                    i as int,
                    i + pat@.len(),
                ));
                assert(rest.subrange(pat@.len() as int, rest.len() as int) =~= s@.subrange(
                    i + pat@.len(),
                    s@.len() as int,
                ));
                assert(out@ + rep@ + replace(
                    s@.subrange(i + pat@.len(), s@.len() as int),
                    pat@,
                    rep@,
                ) =~= out@ + (rep@ + replace(
                    s@.subrange(i + pat@.len(), s@.len() as int),
                    pat@,
                    rep@,
                )));
            }
            push_all(&mut out, rep);
            i = i + pat.len();
        } else {
            proof {
                if pat@.len() > 0 && pat@.len() <= rest.len() {
                    assert(rest.subrange(0, pat@.len() as int) =~= s@.subrange(
                        i as int,
                        i + pat@.len(),
                    ));
                }
                assert(rest.drop_first() =~= s@.subrange(i + 1, s@.len() as int));
                assert(out@.push(s@[i as int]) + replace(
                    s@.subrange(i + 1, s@.len() as int),
                    pat@,
                    rep@,
                ) =~= out@ + (seq![rest[0]] + replace(
                    s@.subrange(i + 1, s@.len() as int),
                    pat@,
                    rep@,
                )));
            }
            out.push(s[i]);
            i = i + 1;
        }
    }
    proof {
        assert(out@ + Seq::<char>::empty() =~= out@);
    }
    out
}

/// The maximal runs of non-whitespace characters of `s`.
pub fn words_exec(s: &[char]) -> (r: Vec<Vec<char>>)
    ensures
        views(r@) == words(s@),
{
    let mut done: Vec<Vec<char>> = Vec::new();
    let mut cur: Vec<char> = Vec::new();
    let mut i: usize = 0;
    while i < s.len()
        invariant
            i <= s@.len(),
            words_scan(s@.subrange(0, i as int)) == (views(done@), cur@),
        decreases s@.len() - i,
    {
        proof {
            lemma_subrange_drop_last(s@, i + 1);
        }
        let c = s[i];
        if is_whitespace(c) {
            if cur.len() > 0 {
                proof {
                    lemma_views_push(done@, cur);
                }
                done.push(cur);
                cur = Vec::new();
            }
        } else {
            cur.push(c);
        }
        i = i + 1;
    }
    proof {
        assert(s@.subrange(0, i as int) =~= s@);
    }
    if cur.len() > 0 {
        proof {
            lemma_views_push(done@, cur);
        }
        done.push(cur);
    }
    done
}

/// The pieces of `parts` from index `start` on, with `sep` between each two.
pub fn join_exec(parts: &Vec<Vec<char>>, start: usize, sep: &[char]) -> (r: Vec<char>)
    requires
        start <= parts@.len(),
    ensures
        r@ == join(views(parts@).skip(start as int), sep@),
{
    let mut out: Vec<char> = Vec::new();
    let mut i: usize = start;
    while i < parts.len()
        invariant
            start <= i <= parts@.len(),
            out@ == join(views(parts@).subrange(start as int, i as int), sep@),
        decreases parts@.len() - i,
    {
        let ghost ps = views(parts@);
        proof {
            assert(ps.subrange(start as int, i + 1).drop_last() =~= ps.subrange(
                start as int,
                i as int,
            ));
        }
        if i > start {
            push_all(&mut out, sep);
        }
        push_all(&mut out, parts[i].as_slice());
        i = i + 1;
    }
    proof {
        assert(views(parts@).subrange(start as int, i as int) =~= views(parts@).skip(
            start as int,
        ));
    }
    out
}

/// Whether `a` and `b` hold the same characters.
pub fn same_chars(a: &[char], b: &[char]) -> (r: bool)
    ensures
        r == (a@ == b@),
{
    if a.len() != b.len() {
        return false;
    }
    let r = starts_with_exec(a, b);
    proof {
        assert(a@.subrange(0, b@.len() as int) =~= a@);
    }
    r
}

/// No whitespace at either end.
pub open spec fn trimmed(s: Seq<char>) -> bool {
    s.len() == 0 || (!is_ws(s[0]) && !is_ws(s.last()))
}

proof fn lemma_trim_start_head(s: Seq<char>)
    ensures
        trim_start(s).len() == 0 || !is_ws(trim_start(s)[0]),
    decreases s.len(),
{
    if s.len() > 0 && is_ws(s[0]) {
        lemma_trim_start_head(s.drop_first());
    }
}

proof fn lemma_trim_end_prefix(s: Seq<char>)
    ensures
        trim_end(s).len() <= s.len(),
        trim_end(s) == s.subrange(0, trim_end(s).len() as int),
        trim_end(s).len() == 0 || !is_ws(trim_end(s).last()),
    decreases s.len(),
{
    if s.len() > 0 && is_ws(s.last()) {
        lemma_trim_end_prefix(s.drop_last());
        assert(s.drop_last().subrange(0, trim_end(s).len() as int) =~= s.subrange(
            0,
            trim_end(s).len() as int,
        ));
    } else {
        assert(s.subrange(0, s.len() as int) =~= s);
    }
}

/// What `trim` returns has no whitespace at either end.
pub proof fn lemma_trim_trimmed(s: Seq<char>)
    ensures
        trimmed(trim(s)),
{
    let y = trim_start(s);
    lemma_trim_start_head(s);
    lemma_trim_end_prefix(y);
    let z = trim_end(y);
    if z.len() > 0 {
        assert(z[0] == y.subrange(0, z.len() as int)[0]);
    }
}

} // verus!
