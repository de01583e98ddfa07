//! Character-level text handling: whitespace, trimming, splitting and joining,
//! with the meaning that `str::trim`, `str::split`, `str::split_whitespace`
//! and `str::lines` give these operations.
use vstd::prelude::*;

verus! {

/// Unicode `White_Space`: the characters that `char::is_whitespace` accepts.
pub open spec fn is_space(c: char) -> bool {
    ||| c == '\t'
    ||| c == '\n'
    ||| c == '\u{0B}'
    ||| c == '\u{0C}'
    ||| c == '\r'
    ||| c == ' '
    ||| c == '\u{85}'
    ||| c == '\u{A0}'
    ||| c == '\u{1680}'
    ||| ('\u{2000}' <= c && c <= '\u{200A}')
    ||| c == '\u{2028}'
    ||| c == '\u{2029}'
    ||| c == '\u{202F}'
    ||| c == '\u{205F}'
    ||| c == '\u{3000}'
}

/// `s` without its leading whitespace.
pub open spec fn trim_start(s: Seq<char>) -> Seq<char>
    decreases s.len(),
{
    if s.len() > 0 && is_space(s[0]) {
        trim_start(s.drop_first())
    } else {
        s
    }
}

/// `s` without its trailing whitespace.
pub open spec fn trim_end(s: Seq<char>) -> Seq<char>
    decreases s.len(),
{
    if s.len() > 0 && is_space(s.last()) {
        trim_end(s.drop_last())
    } else {
        s
    }
}

/// `s` without leading and trailing whitespace (`str::trim`).
pub open spec fn trim(s: Seq<char>) -> Seq<char> {
    trim_end(trim_start(s))
}

/// The views of a sequence of character vectors.
pub open spec fn views(v: Seq<Vec<char>>) -> Seq<Seq<char>> {
    v.map_values(|x: Vec<char>| x@)
}

/// The views of a sequence of strings.
pub open spec fn string_views(v: Seq<String>) -> Seq<Seq<char>> {
    v.map_values(|x: String| x@)
}

/// The pieces of `s` between occurrences of `sep` (`str::split` with a
/// character): one more piece than there are separators, empty pieces kept.
pub open spec fn split_on(s: Seq<char>, sep: char) -> Seq<Seq<char>>
    decreases s.len(),
{
    if s.len() == 0 {
        seq![Seq::<char>::empty()]
    } else {
        let prev = split_on(s.drop_last(), sep);
        if s.last() == sep {
            prev.push(Seq::<char>::empty())
        } else {
            prev.update(prev.len() - 1, prev.last().push(s.last()))
        }
    }
}

/// The maximal runs of non-whitespace characters of `s`, in order
/// (`str::split_whitespace`).
pub open spec fn words(s: Seq<char>) -> Seq<Seq<char>>
    decreases s.len(),
{
    if s.len() == 0 {
        seq![]
    } else {
        let prev = words(s.drop_last());
        if is_space(s.last()) {
            prev
        } else if s.len() >= 2 && !is_space(s[s.len() - 2]) {
            prev.update(prev.len() - 1, prev.last().push(s.last()))
        } else {
            prev.push(seq![s.last()])
        }
    }
}

/// `p` without one trailing carriage return.
pub open spec fn strip_cr(p: Seq<char>) -> Seq<char> {
    if p.len() > 0 && p.last() == '\r' {
        p.drop_last()
    } else {
        p
    }
}

/// The lines of `s` (`str::lines`): the text is cut after each `'\n'`, each
/// line loses its `"\n"` or `"\r\n"` ending, and a last line that is empty
/// (the text ends with `'\n'`, or is empty) does not count.
pub open spec fn lines(s: Seq<char>) -> Seq<Seq<char>> {
    let p = split_on(s, '\n');
    let ended = p.take(p.len() - 1).map_values(|x: Seq<char>| strip_cr(x));
    if p.last().len() == 0 {
        ended
    } else {
        ended.push(p.last())
    }
}

/// Each piece trimmed, the empty ones left out, in order.
pub open spec fn trimmed_nonempty(ps: Seq<Seq<char>>) -> Seq<Seq<char>>
    decreases ps.len(),
{
    if ps.len() == 0 {
        seq![]
    } else {
        let prev = trimmed_nonempty(ps.drop_last());
        let t = trim(ps.last());
        if t.len() > 0 {
            prev.push(t)
        } else {
            prev
        }
    }
}

/// The pieces joined with `sep` between them (`slice::join`).
pub open spec fn join(ps: Seq<Seq<char>>, sep: Seq<char>) -> Seq<char>
    decreases ps.len(),
{
    if ps.len() == 0 {
        seq![]
    } else if ps.len() == 1 {
        ps[0]
    } else {
        join(ps.drop_last(), sep) + sep + ps.last()
    }
}

/// Appends one character to a string (`String::push`).
#[verifier::external_body]
pub(crate) fn push_char(s: &mut String, c: char)
    ensures
        final(s)@ == old(s)@.push(c),
{
    s.push(c);
}

/// The characters of `s`, in order.
pub fn chars_of(s: &str) -> (v: Vec<char>)
    ensures
        v@ == s@,
{
    let mut v: Vec<char> = Vec::new();
    for c in it: s.chars()
        invariant
            it.seq() == s@,
            v@ == it.seq().take(it.index() as int),
    {
        v.push(c);
    }
    v
}


/// Whether `c` is whitespace (`char::is_whitespace`).
pub fn space(c: char) -> (b: bool)
    ensures
        b == is_space(c),
{
    c == '\t' || c == '\n' || c == '\u{0B}' || c == '\u{0C}' || c == '\r' || c == ' '
        || c == '\u{85}' || c == '\u{A0}' || c == '\u{1680}' || ('\u{2000}' <= c && c
        <= '\u{200A}') || c == '\u{2028}' || c == '\u{2029}' || c == '\u{202F}' || c
        == '\u{205F}' || c == '\u{3000}'
}

/// A string holding the characters of `v`.
pub fn string_of(v: &Vec<char>) -> (s: String)
    ensures
        s@ == v@,
{
    let mut s = String::new();
    let mut i: usize = 0;
    while i < v.len()
        invariant
            i <= v.len(),
            s@ == v@.take(i as int),
        decreases v.len() - i,
    {
        push_char(&mut s, v[i]);
        assert(v@.take(i + 1) =~= v@.take(i as int).push(v@[i as int]));
        i += 1;
    }
    assert(v@.take(v.len() as int) =~= v@);
    s
}

/// Strings holding the pieces of `v`.
pub fn strings_of(v: &Vec<Vec<char>>) -> (r: Vec<String>)
    ensures
        string_views(r@) == views(v@),
{
    let mut r: Vec<String> = Vec::new();
    let mut i: usize = 0;
    while i < v.len()
        invariant
            i <= v.len(),
            string_views(r@) =~= views(v@.take(i as int)),
        decreases v.len() - i,
    {
        let s = string_of(&v[i]);
        let ghost before = r@;
        r.push(s);
        assert(r@ =~= before.push(s));
        assert(v@.take(i + 1) =~= v@.take(i as int).push(v@[i as int]));
        assert(string_views(r@) =~= string_views(before).push(s@));
        assert(views(v@.take(i + 1)) =~= views(v@.take(i as int)).push(v@[i as int]@));
        i += 1;
    }
    assert(v@.take(v.len() as int) =~= v@);
    r
}

/// The characters of `v` from `lo` up to `hi`.
pub fn slice_chars(v: &Vec<char>, lo: usize, hi: usize) -> (r: Vec<char>)
    requires
        lo <= hi <= v.len(),
    ensures
        r@ == v@.subrange(lo as int, hi as int),
{
    let mut r: Vec<char> = Vec::new();
    let mut i: usize = lo;
    while i < hi
        invariant
            lo <= i <= hi <= v.len(),
            r@ =~= v@.subrange(lo as int, i as int),
        decreases hi - i,
    {
        r.push(v[i]);
        i += 1;
    }
    r
}

proof fn lemma_trim_start_skip(s: Seq<char>, a: int)
    requires
        0 <= a <= s.len(),
        forall|k: int| 0 <= k < a ==> is_space(#[trigger] s[k]),
    ensures
        trim_start(s) == trim_start(s.skip(a)),
    decreases a,
{
    if a > 0 {
        assert(s.skip(1) =~= s.drop_first());
        lemma_trim_start_skip(s.drop_first(), a - 1);
        assert(s.drop_first().skip(a - 1) =~= s.skip(a));
    } else {
        assert(s.skip(0) =~= s);
    }
}

proof fn lemma_trim_end_take(s: Seq<char>, b: int)
    requires
        0 <= b <= s.len(),
        forall|k: int| b <= k < s.len() ==> is_space(#[trigger] s[k]),
    ensures
        trim_end(s) == trim_end(s.take(b)),
    decreases s.len() - b,
{
    if b < s.len() {
        lemma_trim_end_take(s.drop_last(), b);
        assert(s.drop_last().take(b) =~= s.take(b));
    } else {
        assert(s.take(b) =~= s);
    }
}

/// The characters of `v` without leading and trailing whitespace.
pub fn trim_chars(v: &Vec<char>) -> (r: Vec<char>)
    ensures
        r@ == trim(v@),
{
    let n = v.len();
    let mut a: usize = 0;
    while a < n && space(v[a])
        invariant
            a <= n == v.len(),
            forall|k: int| 0 <= k < a ==> is_space(#[trigger] v@[k]),
        decreases n - a,
    {
        a += 1;
    }
    proof {
        lemma_trim_start_skip(v@, a as int);
        assert(v@.skip(a as int) =~= v@.subrange(a as int, n as int));
    }
    let mut b: usize = n;
    while b > a && space(v[b - 1])
        invariant
            a <= b <= n == v.len(),
            forall|k: int| b <= k < n ==> is_space(#[trigger] v@[k]),
        decreases b,
    {
        b -= 1;
    }
    proof {
        let t = v@.subrange(a as int, n as int);
        assert(trim_start(v@) == t);
        assert forall|k: int| (b - a) <= k < t.len() implies is_space(#[trigger] t[k]) by {
            assert(t[k] == v@[a + k]);
        }
        lemma_trim_end_take(t, b - a);
        assert(t.take(b - a) =~= v@.subrange(a as int, b as int));
        let u = v@.subrange(a as int, b as int);
        if u.len() > 0 {
            assert(u.last() == v@[b - 1]);
        }
    }
    slice_chars(v, a, b)
}


/// A split always has at least one piece.
pub proof fn lemma_split_on_len(s: Seq<char>, sep: char)
    ensures
        split_on(s, sep).len() >= 1,
    decreases s.len(),
{
    if s.len() > 0 {
        lemma_split_on_len(s.drop_last(), sep);
    }
}

/// The pieces of `v` between occurrences of `sep`.
pub fn split_chars(v: &Vec<char>, sep: char) -> (r: Vec<Vec<char>>)
    ensures
        views(r@) == split_on(v@, sep),
{
    let mut done: Vec<Vec<char>> = Vec::new();
    let mut cur: Vec<char> = Vec::new();
    let mut i: usize = 0;
    assert(v@.take(0) =~= Seq::<char>::empty());
    assert(views(done@).push(cur@) =~= split_on(v@.take(0), sep));
    while i < v.len()
        invariant
            i <= v.len(),
            views(done@).push(cur@) =~= split_on(v@.take(i as int), sep),
        decreases v.len() - i,
    {
        let c = v[i];
        let ghost t = v@.take(i + 1);
        assert(t.drop_last() =~= v@.take(i as int));
        assert(t.last() == c);
        if c == sep {
            let ghost d0 = done@;
            done.push(cur);
            cur = Vec::new();
            assert(views(done@) =~= views(d0).push(views(d0.push(done@.last())).last()));
            assert(views(done@).push(cur@) =~= split_on(t, sep));
        } else {
            cur.push(c);
            assert(views(done@).push(cur@) =~= split_on(t, sep));
        }
        i += 1;
    }
    assert(v@.take(v.len() as int) =~= v@);
    let ghost d1 = done@;
    done.push(cur);
    assert(views(done@) =~= views(d1).push(cur@));
    done
}

/// The whitespace-separated words of `v`.
pub fn words_of(v: &Vec<char>) -> (r: Vec<Vec<char>>)
    ensures
        views(r@) == words(v@),
{
    let mut done: Vec<Vec<char>> = Vec::new();
    let mut cur: Vec<char> = Vec::new();
    let mut i: usize = 0;
    assert(v@.take(0) =~= Seq::<char>::empty());
    while i < v.len()
        invariant
            i <= v.len(),
            (i > 0 && !is_space(v@[i - 1])) ==> views(done@).push(cur@) =~= words(
                v@.take(i as int),
            ),
            (i > 0 && !is_space(v@[i - 1])) ==> cur@.len() > 0,
            !(i > 0 && !is_space(v@[i - 1])) ==> views(done@) =~= words(v@.take(i as int)),
            !(i > 0 && !is_space(v@[i - 1])) ==> cur@.len() == 0,
        decreases v.len() - i,
    {
        let c = v[i];
        let ghost t = v@.take(i + 1);
        assert(t.drop_last() =~= v@.take(i as int));
        assert(t.last() == c);
        if i > 0 {
            assert(t[t.len() - 2] == v@[i - 1]);
        }
        if space(c) {
            if cur.len() > 0 {
                let ghost d0 = done@;
                done.push(cur);
                cur = Vec::new();
                assert(views(done@) =~= views(d0).push(done@.last()@));
            }
        } else {
            let ghost c0 = cur@;
            cur.push(c);
            proof {
                if i > 0 && !is_space(v@[i - 1]) {
                    let prev = words(v@.take(i as int));
                    assert(prev =~= views(done@).push(c0));
                    assert(prev.update(prev.len() - 1, prev.last().push(c)) =~= views(
                        done@,
                    ).push(cur@));
                } else {
                    assert(c0.push(c) =~= seq![c]);
                }
            }
        }
        i += 1;
    }
    assert(v@.take(v.len() as int) =~= v@);
    if cur.len() > 0 {
        let ghost d1 = done@;
        done.push(cur);
        assert(views(done@) =~= views(d1).push(done@.last()@));
    }
    done
}

/// Each piece trimmed, the empty ones left out.
pub fn trim_pieces(ps: &Vec<Vec<char>>) -> (r: Vec<Vec<char>>)
    ensures
        views(r@) == trimmed_nonempty(views(ps@)),
{
    let mut r: Vec<Vec<char>> = Vec::new();
    let mut i: usize = 0;
    assert(views(ps@).take(0) =~= Seq::<Seq<char>>::empty());
    while i < ps.len()
        invariant
            i <= ps.len(),
            views(r@) =~= trimmed_nonempty(views(ps@).take(i as int)),
        decreases ps.len() - i,
    {
        let t = trim_chars(&ps[i]);
        let ghost tk = views(ps@).take(i + 1);
        assert(tk.drop_last() =~= views(ps@).take(i as int));
        assert(tk.last() == ps@[i as int]@);
        if t.len() > 0 {
            let ghost r0 = r@;
            r.push(t);
            assert(views(r@) =~= views(r0).push(t@));
        }
        i += 1;
    }
    assert(views(ps@).take(ps.len() as int) =~= views(ps@));
    r
}

/// The pieces joined with `sep` between them.
pub fn join_chars(ps: &Vec<Vec<char>>, sep: &Vec<char>) -> (r: Vec<char>)
    ensures
        r@ == join(views(ps@), sep@),
{
    let mut r: Vec<char> = Vec::new();
    let mut i: usize = 0;
    while i < ps.len()
        invariant
            i <= ps.len(),
            r@ =~= join(views(ps@).take(i as int), sep@),
        decreases ps.len() - i,
    {
        let ghost tk = views(ps@).take(i + 1);
        assert(tk.drop_last() =~= views(ps@).take(i as int));
        assert(tk.last() == ps@[i as int]@);
        if i > 0 {
            append_chars(&mut r, sep);
        }
        append_chars(&mut r, &ps[i]);
        i += 1;
    }
    assert(views(ps@).take(ps.len() as int) =~= views(ps@));
    r
}

/// Appends the characters of `w` to `v`.
pub fn append_chars(v: &mut Vec<char>, w: &Vec<char>)
    ensures
        final(v)@ == old(v)@ + w@,
{
    let mut i: usize = 0;
    while i < w.len()
        invariant
            i <= w.len(),
            v@ =~= old(v)@ + w@.take(i as int),
        decreases w.len() - i,
    {
        v.push(w[i]);
        i += 1;
    }
    assert(w@.take(w.len() as int) =~= w@);
}

/// The lines of `v`.
pub fn lines_of(v: &Vec<char>) -> (r: Vec<Vec<char>>)
    ensures
        views(r@) == lines(v@),
{
    let p = split_chars(v, '\n');
    proof {
        lemma_split_on_len(v@, '\n');
    }
    let n = p.len();
    let mut r: Vec<Vec<char>> = Vec::new();
    let mut i: usize = 0;
    while i + 1 < n
        invariant
            i < n == p.len(),
            views(p@) == split_on(v@, '\n'),
            views(r@) =~= views(p@).take(i as int).map_values(|x: Seq<char>| strip_cr(x)),
        decreases n - i,
    {
        let piece = &p[i];
        let k = piece.len();
        let line = if k > 0 && piece[k - 1] == '\r' {
            slice_chars(piece, 0, k - 1)
        } else {
            slice_chars(piece, 0, k)
        };
        proof {
            if k > 0 {
                assert(piece@.drop_last() =~= piece@.subrange(0, k - 1));
            }
            assert(piece@.subrange(0, k as int) =~= piece@);
        }
        let ghost r0 = r@;
        r.push(line);
        assert(views(r@) =~= views(r0).push(line@));
        assert(views(p@).take(i + 1) =~= views(p@).take(i as int).push(piece@));
        i += 1;
    }
    if p[n - 1].len() > 0 {
        let last = slice_chars(&p[n - 1], 0, p[n - 1].len());
        assert(last@ =~= p@[n - 1]@);
        let ghost r1 = r@;
        r.push(last);
        assert(views(r@) =~= views(r1).push(last@));
    }
    r
}


/// Splitting a text at one separator splits it into the pieces of what stands
/// before and the pieces of what stands after.
pub proof fn lemma_split_on_concat(x: Seq<char>, y: Seq<char>, sep: char)
    ensures
        split_on(x + seq![sep] + y, sep) == split_on(x, sep) + split_on(y, sep),
    decreases y.len(),
{
    let xs = x + seq![sep];
    lemma_split_on_len(x, sep);
    if y.len() == 0 {
        assert(xs + y =~= xs);
        assert(xs.drop_last() =~= x);
        assert(split_on(xs, sep) =~= split_on(x, sep) + split_on(y, sep));
    } else {
        lemma_split_on_concat(x, y.drop_last(), sep);
        lemma_split_on_len(y.drop_last(), sep);
        let s = xs + y;
        assert(s.drop_last() =~= xs + y.drop_last());
        assert(s.last() == y.last());
        let a = split_on(x, sep);
        let b = split_on(y.drop_last(), sep);
        if y.last() == sep {
            assert((a + b).push(Seq::<char>::empty()) =~= a + b.push(Seq::<char>::empty()));
        } else {
            let ab = a + b;
            assert(ab.update(ab.len() - 1, ab.last().push(y.last())) =~= a + b.update(
                b.len() - 1,
                b.last().push(y.last()),
            ));
        }
    }
}

/// A text without the separator is a single piece.
pub proof fn lemma_split_on_single(x: Seq<char>, sep: char)
    requires
        !x.contains(sep),
    ensures
        split_on(x, sep) == seq![x],
    decreases x.len(),
{
    if x.len() > 0 {
        assert(!x.drop_last().contains(sep)) by {
            if x.drop_last().contains(sep) {
                let k = choose|k: int| 0 <= k < x.drop_last().len() && x.drop_last()[k] == sep;
                assert(x[k] == sep);
            }
        }
        lemma_split_on_single(x.drop_last(), sep);
        assert(x[x.len() - 1] != sep);
        assert(x.drop_last().push(x.last()) =~= x);
        assert(seq![x.drop_last()].update(0, x.drop_last().push(x.last())) =~= seq![x]);
    } else {
        assert(x =~= Seq::<char>::empty());
    }
}

/// Whether two character sequences are equal.
pub fn chars_eq(a: &Vec<char>, b: &Vec<char>) -> (r: bool)
    ensures
        r == (a@ == b@),
{
    if a.len() != b.len() {
        return false;
    }
    let mut i: usize = 0;
    while i < a.len()
        invariant
            i <= a.len() == b.len(),
            a@.take(i as int) =~= b@.take(i as int),
        decreases a.len() - i,
    {
        if a[i] != b[i] {
            assert(a@[i as int] != b@[i as int]);
            return false;
        }
        assert(a@.take(i + 1) =~= a@.take(i as int).push(a@[i as int]));
        assert(b@.take(i + 1) =~= b@.take(i as int).push(b@[i as int]));
        i += 1;
    }
    assert(a@.take(a.len() as int) =~= a@);
    assert(b@.take(b.len() as int) =~= b@);
    true
}

/// Whether `a` begins with `p`.
pub fn starts_with_chars(a: &Vec<char>, p: &Vec<char>) -> (r: bool)
    ensures
        r == (p@.len() <= a@.len() && a@.take(p@.len() as int) == p@),
{
    if p.len() > a.len() {
        return false;
    }
    let head = slice_chars(a, 0, p.len());
    assert(head@ =~= a@.take(p@.len() as int));
    chars_eq(&head, p)
}

/// The lines of `text`.
pub fn text_lines(text: &str) -> (r: Vec<String>)
    ensures
        string_views(r@) == lines(text@),
{
    let v = chars_of(text);
    let ls = lines_of(&v);
    strings_of(&ls)
}

/// The tickers of a ticker list text: one per line, each trimmed, blank lines
/// left out.
pub open spec fn ticker_lines(text: Seq<char>) -> Seq<Seq<char>> {
    trimmed_nonempty(lines(text))
}

/// The tickers of a ticker list text (the contents of a tickers file).
pub fn ticker_list(text: &str) -> (r: Vec<String>)
    ensures
        string_views(r@) == ticker_lines(text@),
{
    let v = chars_of(text);
    let ls = lines_of(&v);
    let kept = trim_pieces(&ls);
    strings_of(&kept)
}

/// Whether `s` is empty or only whitespace.
pub fn is_blank(s: &str) -> (r: bool)
    ensures
        r == (trim(s@).len() == 0),
{
    let v = chars_of(s);
    let t = trim_chars(&v);
    t.len() == 0
}

/// `s` holds no whitespace.
pub open spec fn no_space(s: Seq<char>) -> bool {
    forall|i: int| 0 <= i < s.len() ==> !is_space(#[trigger] s[i])
}

/// Whitespace between two texts separates their words.
pub proof fn lemma_words_concat(x: Seq<char>, y: Seq<char>, sp: char)
    requires
        is_space(sp),
    ensures
        words(x + seq![sp] + y) == words(x) + words(y),
    decreases y.len(),
{
    let xs = x + seq![sp];
    if y.len() == 0 {
        assert(xs + y =~= xs);
        assert(xs.drop_last() =~= x);
        assert(words(x) + words(y) =~= words(x));
    } else {
        lemma_words_concat(x, y.drop_last(), sp);
        let s = xs + y;
        assert(s.drop_last() =~= xs + y.drop_last());
        assert(s.last() == y.last());
        assert(s[s.len() - 2] == (if y.len() >= 2 {
            y[y.len() - 2]
        } else {
            sp
        }));
        let a = words(x);
        let b = words(y.drop_last());
        if is_space(y.last()) {
        } else if y.len() >= 2 && !is_space(y[y.len() - 2]) {
            lemma_words_last_nonempty(y.drop_last());
            let ab = a + b;
            assert(ab.update(ab.len() - 1, ab.last().push(y.last())) =~= a + b.update(
                b.len() - 1,
                b.last().push(y.last()),
            ));
        } else {
            assert((a + b).push(seq![y.last()]) =~= a + b.push(seq![y.last()]));
        }
    }
}

/// A text that ends in a non-whitespace character has a word.
pub proof fn lemma_words_last_nonempty(s: Seq<char>)
    requires
        s.len() > 0,
        !is_space(s.last()),
    ensures
        words(s).len() > 0,
    decreases s.len(),
{
    if s.len() >= 2 && !is_space(s[s.len() - 2]) {
        assert(s.drop_last().last() == s[s.len() - 2]);
        lemma_words_last_nonempty(s.drop_last());
    }
}

/// A non-empty text without whitespace is one word.
pub proof fn lemma_words_single(w: Seq<char>)
    requires
        w.len() > 0,
        no_space(w),
    ensures
        words(w) == seq![w],
    decreases w.len(),
{
    assert(!is_space(w[w.len() - 1]));
    if w.len() == 1 {
        assert(w.drop_last() =~= Seq::<char>::empty());
        assert(seq![w.last()] =~= w);
        assert(words(w.drop_last()) =~= Seq::<Seq<char>>::empty());
        assert(words(w) =~= seq![w]);
    } else {
        lemma_words_single(w.drop_last());
        assert(w.drop_last().push(w.last()) =~= w);
        assert(w[w.len() - 2] == w.drop_last()[w.len() - 2]);
        assert(!is_space(w[w.len() - 2]));
        assert(seq![w.drop_last()].update(0, w.drop_last().push(w.last())) =~= seq![w]);
    }
}

/// A text without whitespace is its own trim.
pub proof fn lemma_trim_no_space(w: Seq<char>)
    requires
        no_space(w),
    ensures
        trim(w) == w,
{
    if w.len() > 0 {
        assert(!is_space(w[0]));
        assert(!is_space(w.last()));
    }
}

/// A text that begins and ends with non-whitespace, followed by a newline,
/// trims to the text.
pub proof fn lemma_trim_line(s: Seq<char>)
    requires
        s.len() > 0,
        !is_space(s[0]),
        !is_space(s.last()),
    ensures
        trim(s.push('\n')) == s,
{
    let t = s.push('\n');
    assert(t[0] == s[0]);
    assert(trim_start(t) == t);
    assert(t.drop_last() =~= s);
    assert(t.last() == '\n');
    assert(trim_end(s) == s);
    assert(trim_end(t) == trim_end(t.drop_last()));
}

/// Joined pieces split at the separator give back the pieces, when no piece
/// holds the separator.
pub proof fn lemma_split_join(ps: Seq<Seq<char>>, sep: char)
    requires
        ps.len() > 0,
        forall|i: int| 0 <= i < ps.len() ==> !(#[trigger] ps[i]).contains(sep),
    ensures
        split_on(join(ps, seq![sep]), sep) == ps,
    decreases ps.len(),
{
    if ps.len() == 1 {
        lemma_split_on_single(ps[0], sep);
        assert(seq![ps[0]] =~= ps);
    } else {
        let init = ps.drop_last();
        assert forall|i: int| 0 <= i < init.len() implies !(#[trigger] init[i]).contains(sep) by {
            assert(init[i] == ps[i]);
        }
        lemma_split_join(init, sep);
        lemma_split_on_concat(join(init, seq![sep]), ps.last(), sep);
        lemma_split_on_single(ps.last(), sep);
        assert(init + seq![ps.last()] =~= ps);
    }
}

/// Joined pieces hold only characters of the pieces and of the separator.
pub proof fn lemma_join_no_space(ps: Seq<Seq<char>>, sep: Seq<char>)
    requires
        no_space(sep),
        forall|i: int| 0 <= i < ps.len() ==> no_space(#[trigger] ps[i]),
    ensures
        no_space(join(ps, sep)),
    decreases ps.len(),
{
    if ps.len() == 1 {
        assert(no_space(ps[0]));
    } else if ps.len() > 1 {
        let init = ps.drop_last();
        assert forall|i: int| 0 <= i < init.len() implies no_space(#[trigger] init[i]) by {
            assert(init[i] == ps[i]);
        }
        lemma_join_no_space(init, sep);
        let j = join(ps, sep);
        let a = join(init, sep);
        assert(no_space(ps.last()));
        assert forall|i: int| 0 <= i < j.len() implies !is_space(#[trigger] j[i]) by {
            if i < a.len() {
                assert(j[i] == a[i]);
            } else if i < a.len() + sep.len() {
                assert(j[i] == sep[i - a.len()]);
            } else {
                assert(j[i] == ps.last()[i - a.len() - sep.len()]);
            }
        }
    }
}

/// Trimming and keeping the non-empty pieces changes nothing when every piece
/// is non-empty and holds no whitespace.
pub proof fn lemma_trimmed_nonempty_id(ps: Seq<Seq<char>>)
    requires
        forall|i: int| 0 <= i < ps.len() ==> (#[trigger] ps[i]).len() > 0 && no_space(ps[i]),
    ensures
        trimmed_nonempty(ps) == ps,
    decreases ps.len(),
{
    if ps.len() > 0 {
        let init = ps.drop_last();
        assert forall|i: int| 0 <= i < init.len() implies (#[trigger] init[i]).len() > 0
            && no_space(init[i]) by {
            assert(init[i] == ps[i]);
        }
        lemma_trimmed_nonempty_id(init);
        assert(ps.last().len() > 0 && no_space(ps.last()));
        lemma_trim_no_space(ps.last());
        assert(init.push(ps.last()) =~= ps);
    }
}

/// Lines, each ended by `'\n'`.
pub open spec fn newline_ended(ls: Seq<Seq<char>>) -> Seq<char>
    decreases ls.len(),
{
    if ls.len() == 0 {
        seq![]
    } else {
        newline_ended(ls.drop_last()) + ls.last() + seq!['\n']
    }
}

/// A line holds no `'\n'` and does not end with `'\r'`.
pub open spec fn plain_line(l: Seq<char>) -> bool {
    &&& !l.contains('\n')
    &&& (l.len() > 0 ==> l.last() != '\r')
}

proof fn lemma_split_newline_ended(ls: Seq<Seq<char>>, y: Seq<char>)
    requires
        forall|i: int| 0 <= i < ls.len() ==> !(#[trigger] ls[i]).contains('\n'),
    ensures
        split_on(newline_ended(ls) + y, '\n') == ls + split_on(y, '\n'),
    decreases ls.len(),
{
    if ls.len() == 0 {
        assert(newline_ended(ls) + y =~= y);
        assert(ls + split_on(y, '\n') =~= split_on(y, '\n'));
    } else {
        let init = ls.drop_last();
        let last = ls.last();
        assert forall|i: int| 0 <= i < init.len() implies !(#[trigger] init[i]).contains('\n') by {
            assert(init[i] == ls[i]);
        }
        assert(!last.contains('\n'));
        let y2 = last + seq!['\n'] + y;
        lemma_split_newline_ended(init, y2);
        assert(newline_ended(ls) + y =~= newline_ended(init) + y2);
        lemma_split_on_concat(last, y, '\n');
        lemma_split_on_single(last, '\n');
        assert(init + (seq![last] + split_on(y, '\n')) =~= ls + split_on(y, '\n'));
    }
}

/// Lines ended by `'\n'` read back, line by line, as the same lines, when no
/// line holds a `'\n'` or ends with `'\r'`.
pub proof fn lemma_lines_newline_ended(ls: Seq<Seq<char>>)
    requires
        forall|i: int| 0 <= i < ls.len() ==> plain_line(#[trigger] ls[i]),
    ensures
        lines(newline_ended(ls)) == ls,
{
    assert forall|i: int| 0 <= i < ls.len() implies !(#[trigger] ls[i]).contains('\n') by {
        assert(plain_line(ls[i]));
    }
    lemma_split_newline_ended(ls, Seq::<char>::empty());
    assert(newline_ended(ls) + Seq::<char>::empty() =~= newline_ended(ls));
    let p = split_on(newline_ended(ls), '\n');
    assert(p =~= ls.push(Seq::<char>::empty()));
    assert(p.take(p.len() - 1) =~= ls);
    assert forall|i: int| 0 <= i < ls.len() implies strip_cr(#[trigger] ls[i]) == ls[i] by {
        assert(plain_line(ls[i]));
    }
    assert(ls.map_values(|x: Seq<char>| strip_cr(x)) =~= ls);
}

/// No piece of a split holds the separator.
pub proof fn lemma_split_on_pieces(s: Seq<char>, sep: char)
    ensures
        forall|i: int|
            0 <= i < split_on(s, sep).len() ==> !(#[trigger] split_on(s, sep)[i]).contains(sep),
    decreases s.len(),
{
    lemma_split_on_len(s, sep);
    if s.len() > 0 {
        lemma_split_on_pieces(s.drop_last(), sep);
        lemma_split_on_len(s.drop_last(), sep);
        let prev = split_on(s.drop_last(), sep);
        let cur = split_on(s, sep);
        if s.last() != sep {
            let l = prev.last().push(s.last());
            assert forall|i: int| 0 <= i < cur.len() implies !(#[trigger] cur[i]).contains(sep) by {
                if i < cur.len() - 1 {
                    assert(cur[i] == prev[i]);
                } else {
                    assert(cur[i] == l);
                    assert(!prev[prev.len() - 1].contains(sep));
                    if l.contains(sep) {
                        let k = choose|k: int| 0 <= k < l.len() && l[k] == sep;
                        assert(prev.last()[k] == sep);
                    }
                }
            }
        } else {
            assert forall|i: int| 0 <= i < cur.len() implies !(#[trigger] cur[i]).contains(sep) by {
                if i < cur.len() - 1 {
                    assert(cur[i] == prev[i]);
                } else {
                    assert(cur[i] =~= Seq::<char>::empty());
                }
            }
        }
    }
}

/// Joining the pieces of a split with the separator gives back the text.
pub proof fn lemma_join_split_on(s: Seq<char>, sep: char)
    ensures
        join(split_on(s, sep), seq![sep]) == s,
    decreases s.len(),
{
    if s.len() == 0 {
        assert(join(split_on(s, sep), seq![sep]) =~= s);
    } else {
        lemma_join_split_on(s.drop_last(), sep);
        lemma_split_on_len(s.drop_last(), sep);
        let prev = split_on(s.drop_last(), sep);
        if s.last() == sep {
            let cur = prev.push(Seq::<char>::empty());
            assert(cur.drop_last() =~= prev);
            assert(join(cur, seq![sep]) =~= s);
        } else {
            let cur = prev.update(prev.len() - 1, prev.last().push(s.last()));
            if prev.len() == 1 {
                assert(join(cur, seq![sep]) =~= s);
            } else {
                assert(cur.drop_last() =~= prev.drop_last());
                assert(join(cur, seq![sep]) =~= join(prev, seq![sep]).push(s.last()));
                assert(s.drop_last().push(s.last()) =~= s);
            }
        }
    }
}

} // verus!
