use vstd::prelude::*;

verus! {

/// `char::is_whitespace`: the characters with Unicode's `White_Space` property.
pub open spec fn is_white(c: char) -> bool {
    c == ' ' || c == '\t' || c == '\n' || c == '\u{0B}' || c == '\u{0C}' || c == '\r'
        || c == '\u{85}' || c == '\u{A0}' || c == '\u{1680}'
        || ('\u{2000}' <= c && c <= '\u{200A}') || c == '\u{2028}' || c == '\u{2029}'
        || c == '\u{202F}' || c == '\u{205F}' || c == '\u{3000}'
}

fn is_white_char(c: char) -> (r: bool)
    ensures
        r == is_white(c),
{
    c == ' ' || c == '\t' || c == '\n' || c == '\u{0B}' || c == '\u{0C}' || c == '\r'
        || c == '\u{85}' || c == '\u{A0}' || c == '\u{1680}'
        || ('\u{2000}' <= c && c <= '\u{200A}') || c == '\u{2028}' || c == '\u{2029}'
        || c == '\u{202F}' || c == '\u{205F}' || c == '\u{3000}'
}

/// The characters of `s`, in order.
pub(crate) fn chars_of(s: &str) -> (r: Vec<char>)
    ensures
        r@ == s@,
{
    let mut r: Vec<char> = Vec::new();
    for c in it: s.chars()
        invariant
            r@ == it.seq().take(it.index() as int),
    {
        r.push(c);
    }
    r
}


/// The whitespace-separated tokens of `s`, in order: maximal runs of
/// non-whitespace characters.
pub open spec fn tokens(s: Seq<char>) -> Seq<Seq<char>>
    decreases s.len(),
{
    if s.len() == 0 {
        seq![]
    } else {
        let t = tokens(s.drop_last());
        let c = s.last();
        if is_white(c) {
            t
        } else if s.len() >= 2 && !is_white(s[s.len() - 2]) {
            t.update(t.len() - 1, t.last().push(c))
        } else {
            t.push(seq![c])
        }
    }
}

/// The bounds `[lo, hi)` in `v` of each of its tokens.
pub(crate) fn token_bounds(v: &Vec<char>) -> (r: Vec<(usize, usize)>)
    ensures
        r.len() == tokens(v@).len(),
        forall|k: int| 0 <= k < r.len() ==> (#[trigger] r[k]).0 <= r[k].1 <= v.len(),
        forall|k: int|
            0 <= k < r.len() ==> #[trigger] tokens(v@)[k] == v@.subrange(
                r[k].0 as int,
                r[k].1 as int,
            ),
{
    let mut r: Vec<(usize, usize)> = Vec::new();
    let n = v.len();
    let mut i: usize = 0;
    while i < n
        invariant
            i <= n == v.len(),
            r.len() == tokens(v@.take(i as int)).len(),
            forall|k: int| 0 <= k < r.len() ==> (#[trigger] r[k]).0 <= r[k].1 <= i,
            forall|k: int|
                0 <= k < r.len() ==> #[trigger] tokens(
                    v@.take(i as int),
                )[k] == v@.subrange(r[k].0 as int, r[k].1 as int),
            i > 0 && !is_white(v@[i - 1]) ==> r.len() > 0 && r@.last().1 == i,
        decreases n - i,
    {
        let c = v[i];
        let ghost prev = v@.take(i as int);
        assert(v@.take(i + 1).drop_last() =~= prev);
        assert(tokens(v@.take(i + 1)) == ({
            let t = tokens(prev);
            if is_white(c) {
                t
            } else if i >= 1 && !is_white(v@[i - 1]) {
                t.update(t.len() - 1, t.last().push(c))
            } else {
                t.push(seq![c])
            }
        }));
        let ghost r0 = r@;
        if is_white_char(c) {
            assert forall|k: int| 0 <= k < r.len() implies #[trigger] tokens(v@.take(i + 1))[k] == v@.subrange(
                r[k].0 as int,
                r[k].1 as int,
            ) by {
                assert(tokens(prev)[k] == v@.subrange(r[k].0 as int, r[k].1 as int));
            }
        } else if i > 0 && !is_white_char(v[i - 1]) {
            let last = r.len() - 1;
            let lo = r[last].0;
            assert(tokens(prev)[last as int] == v@.subrange(lo as int, i as int));
            assert(v@.subrange(lo as int, i + 1) =~= v@.subrange(lo as int, i as int).push(c));
            r.set(last, (lo, i + 1));
            assert forall|k: int| 0 <= k < r.len() implies (#[trigger] r[k]).0 <= r[k].1 <= i + 1 by {
                if k < last {
                    assert(r[k] == r0[k]);
                }
            }
            assert forall|k: int| 0 <= k < r.len() implies #[trigger] tokens(v@.take(i + 1))[k] == v@.subrange(
                r[k].0 as int,
                r[k].1 as int,
            ) by {
                if k < last {
                    assert(tokens(prev)[k] == v@.subrange(r[k].0 as int, r[k].1 as int));
                }
            }
        } else {
            assert(v@.subrange(i as int, i + 1) =~= seq![c]);
            r.push((i, i + 1));
            assert forall|k: int| 0 <= k < r.len() implies #[trigger] tokens(v@.take(i + 1))[k] == v@.subrange(
                r[k].0 as int,
                r[k].1 as int,
            ) by {
                if k < r.len() - 1 {
                    assert(tokens(prev)[k] == v@.subrange(r[k].0 as int, r[k].1 as int));
                }
            }
        }
        i = i + 1;
    }
    assert(v@.take(n as int) =~= v@);
    r
}

/// The text of each string of `v`.
pub open spec fn views(v: Seq<String>) -> Seq<Seq<char>> {
    v.map_values(|x: String| x@)
}

/// The physical lines of `s`: the pieces between line feeds, in order.
pub open spec fn lines(s: Seq<char>) -> Seq<Seq<char>>
    decreases s.len(),
{
    if s.len() == 0 {
        seq![seq![]]
    } else {
        let p = lines(s.drop_last());
        if s.last() == '\n' {
            p.push(seq![])
        } else {
            p.update(p.len() - 1, p.last().push(s.last()))
        }
    }
}

/// `s` without its leading whitespace.
pub open spec fn trim_start(s: Seq<char>) -> Seq<char>
    decreases s.len(),
{
    if s.len() > 0 && is_white(s[0]) {
        trim_start(s.drop_first())
    } else {
        s
    }
}

/// `s` without its trailing whitespace.
pub open spec fn trim_end(s: Seq<char>) -> Seq<char>
    decreases s.len(),
{
    if s.len() > 0 && is_white(s.last()) {
        trim_end(s.drop_last())
    } else {
        s
    }
}

/// `s` without its leading and trailing whitespace.
pub open spec fn trim(s: Seq<char>) -> Seq<char> {
    trim_start(trim_end(s))
}

/// A trimmed line holds an instruction when it is neither blank nor a comment.
pub open spec fn is_instruction(t: Seq<char>) -> bool {
    t.len() > 0 && t[0] != '/'
}

/// The trimmed lines of `ls` that hold instructions, in their order.
pub open spec fn kept(ls: Seq<Seq<char>>) -> Seq<Seq<char>>
    decreases ls.len(),
{
    if ls.len() == 0 {
        seq![]
    } else {
        let r = kept(ls.drop_last());
        let t = trim(ls.last());
        if is_instruction(t) {
            r.push(t)
        } else {
            r
        }
    }
}

/// The instruction stream of a source text: each physical line trimmed, with
/// blank lines and comment lines left out.
pub open spec fn instructions(s: Seq<char>) -> Seq<Seq<char>> {
    kept(lines(s))
}

/// The bounds `[a, b)` of `v[lo..hi]` without its leading and trailing whitespace.
fn trim_bounds(v: &Vec<char>, lo: usize, hi: usize) -> (r: (usize, usize))
    requires
        lo <= hi <= v.len(),
    ensures
        lo <= r.0 <= r.1 <= hi,
        v@.subrange(r.0 as int, r.1 as int) == trim(v@.subrange(lo as int, hi as int)),
{
    let mut b = hi;
    while b > lo && is_white_char(v[b - 1])
        invariant
            lo <= b <= hi <= v.len(),
            trim_end(v@.subrange(lo as int, hi as int)) == trim_end(
                v@.subrange(lo as int, b as int),
            ),
        decreases b,
    {
        assert(v@.subrange(lo as int, b as int).drop_last() =~= v@.subrange(
            lo as int,
            b - 1,
        ));
        b = b - 1;
    }
    let mut a = lo;
    while a < b && is_white_char(v[a])
        invariant
            lo <= a <= b <= hi <= v.len(),
            trim(v@.subrange(lo as int, hi as int)) == trim_start(v@.subrange(a as int, b as int)),
        decreases b - a,
    {
        assert(v@.subrange(a as int, b as int).drop_first() =~= v@.subrange(a + 1, b as int));
        a = a + 1;
    }
    (a, b)
}

/// Appends the trimmed text of `v[lo..hi]` to `out` when it holds an instruction.
fn keep_line(source: &str, v: &Vec<char>, lo: usize, hi: usize, out: &mut Vec<String>)
    requires
        v@ == source@,
        lo <= hi <= v.len(),
    ensures
        views(final(out)@) == views(old(out)@) + kept(seq![v@.subrange(lo as int, hi as int)]),
{
    let (a, b) = trim_bounds(v, lo, hi);
    let ghost line = v@.subrange(lo as int, hi as int);
    assert(seq![line].drop_last() =~= Seq::<Seq<char>>::empty());
    assert(kept(Seq::<Seq<char>>::empty()) == Seq::<Seq<char>>::empty());
    if a < b && v[a] != '/' {
        let t = source.substring_char(a, b).to_owned();
        out.push(t);
        assert(kept(seq![line]) == seq![trim(line)]);
        assert(views(final(out)@) =~= views(old(out)@) + seq![trim(line)]);
    } else {
        assert(kept(seq![line]) == Seq::<Seq<char>>::empty());
        assert(views(final(out)@) =~= views(old(out)@) + Seq::<Seq<char>>::empty());
    }
}

proof fn lemma_kept_push(ls: Seq<Seq<char>>, l: Seq<char>)
    ensures
        kept(ls.push(l)) == kept(ls) + kept(seq![l]),
{
    assert(ls.push(l).drop_last() =~= ls);
    assert(seq![l].drop_last() =~= Seq::<Seq<char>>::empty());
    assert(kept(Seq::<Seq<char>>::empty()) == Seq::<Seq<char>>::empty());
    assert(kept(ls) + Seq::<Seq<char>>::empty() =~= kept(ls));
    assert(kept(ls) + seq![trim(l)] =~= kept(ls).push(trim(l)));
}

/// The instruction stream of `source`, in the order of its lines.
pub fn clean_source(source: &str) -> (r: Vec<String>)
    ensures
        views(r@) == instructions(source@),
{
    let v = chars_of(source);
    let n = v.len();
    let mut out: Vec<String> = Vec::new();
    let mut start: usize = 0;
    let mut i: usize = 0;
    let ghost mut done: Seq<Seq<char>> = seq![];
    assert(v@.take(0) =~= Seq::<char>::empty());
    assert(done.push(v@.subrange(0, 0)) =~= seq![Seq::<char>::empty()]);
    while i < n
        invariant
            v@ == source@,
            n == v.len(),
            start <= i <= n,
            lines(v@.take(i as int)) == done.push(v@.subrange(start as int, i as int)),
            views(out@) == kept(done),
        decreases n - i,
    {
        let ghost prev = v@.take(i as int);
        assert(v@.take(i + 1).drop_last() =~= prev);
        if v[i] == '\n' {
            keep_line(source, &v, start, i, &mut out);
            proof {
                lemma_kept_push(done, v@.subrange(start as int, i as int));
                done = done.push(v@.subrange(start as int, i as int));
                assert(v@.subrange(i + 1, i + 1) =~= Seq::<char>::empty());
            }
            start = i + 1;
        } else {
            assert(v@.subrange(start as int, i + 1) =~= v@.subrange(start as int, i as int).push(
                v@[i as int],
            ));
        }
        i = i + 1;
    }
    assert(v@.take(n as int) =~= v@);
    keep_line(source, &v, start, n, &mut out);
    proof {
        lemma_kept_push(done, v@.subrange(start as int, n as int));
    }
    out
}

pub open spec fn is_digit(c: char) -> bool {
    '0' <= c && c <= '9'
}

/// The number that the decimal digits `d` spell.
pub open spec fn decimal_value(d: Seq<char>) -> nat
    decreases d.len(),
{
    if d.len() == 0 {
        0
    } else {
        decimal_value(d.drop_last()) * 10 + (d.last() as nat - '0' as nat) as nat
    }
}

/// What `u32::from_str` makes of `s`: an optional `+` and one or more
/// decimal digits whose value fits in a `u32`.
pub open spec fn parse_u32(s: Seq<char>) -> Option<u32> {
    let d = unsigned_digits(s);
    if d.len() > 0 && all_digits(d) && decimal_value(d) <= u32::MAX {
        Some(decimal_value(d) as u32)
    } else {
        None
    }
}

/// `s` without one leading `+`.
pub open spec fn unsigned_digits(s: Seq<char>) -> Seq<char> {
    if s.len() > 0 && s[0] == '+' {
        s.drop_first()
    } else {
        s
    }
}

pub open spec fn all_digits(d: Seq<char>) -> bool {
    forall|j: int| 0 <= j < d.len() ==> is_digit(#[trigger] d[j])
}

proof fn lemma_decimal_value_grows(d: Seq<char>, i: int, j: int)
    requires
        0 <= i <= j <= d.len(),
        forall|k: int| 0 <= k < d.len() ==> is_digit(#[trigger] d[k]),
    ensures
        decimal_value(d.take(i)) <= decimal_value(d.take(j)),
    decreases j - i,
{
    if i < j {
        lemma_decimal_value_grows(d, i, j - 1);
        assert(d.take(j).drop_last() =~= d.take(j - 1));
    }
}

/// What `u32::from_str` makes of `v[lo..hi]`.
pub(crate) fn parse_u32_at(v: &Vec<char>, lo: usize, hi: usize) -> (r: Option<u32>)
    requires
        lo <= hi <= v.len(),
    ensures
        r == parse_u32(v@.subrange(lo as int, hi as int)),
{
    let ghost s = v@.subrange(lo as int, hi as int);
    let start = if lo < hi && v[lo] == '+' {
        lo + 1
    } else {
        lo
    };
    let ghost d = v@.subrange(start as int, hi as int);
    assert(d =~= unsigned_digits(s));
    if start == hi {
        return None;
    }
    let mut k: usize = start;
    while k < hi
        invariant
            start <= k <= hi <= v.len(),
            d == v@.subrange(start as int, hi as int),
            d == unsigned_digits(v@.subrange(lo as int, hi as int)),
            forall|j: int| start <= j < k ==> is_digit(#[trigger] v@[j]),
        decreases hi - k,
    {
        if !('0' <= v[k] && v[k] <= '9') {
            assert(!is_digit(d[k - start]));
            assert(!all_digits(d));
            return None;
        }
        k = k + 1;
    }
    assert forall|j: int| 0 <= j < d.len() implies is_digit(#[trigger] d[j]) by {
        assert(d[j] == v@[start + j]);
    }
    let mut value: u64 = 0;
    let mut k: usize = start;
    while k < hi
        invariant
            start <= k <= hi <= v.len(),
            d == v@.subrange(start as int, hi as int),
            d == unsigned_digits(v@.subrange(lo as int, hi as int)),
            forall|j: int| 0 <= j < d.len() ==> is_digit(#[trigger] d[j]),
            value == decimal_value(d.take(k - start)),
            value <= u32::MAX,
        decreases hi - k,
    {
        assert(d.take(k + 1 - start).drop_last() =~= d.take(k - start));
        assert(is_digit(d[k - start]));
        let digit = (v[k] as u32 - '0' as u32) as u64;
        let next = value * 10 + digit;
        assert(d.take(k + 1 - start).last() == v@[k as int]);
        assert(next == decimal_value(d.take(k + 1 - start)));
        if next > u32::MAX as u64 {
            proof {
                lemma_decimal_value_grows(d, k + 1 - start, d.len() as int);
                assert(d.take(d.len() as int) =~= d);
                assert(decimal_value(d) > u32::MAX);
            }
            return None;
        }
        value = next;
        k = k + 1;
    }
    assert(d.take(d.len() as int) =~= d);
    Some(value as u32)
}

/// The instruction stream holds exactly the trimmed physical lines that are
/// neither blank nor comments, in the order of the source: as many
/// instructions as there are such lines.
pub proof fn instructions_are_kept_lines(s: Seq<char>)
    ensures
        instructions(s) == lines(s).map_values(|l: Seq<char>| trim(l)).filter(
            |t: Seq<char>| is_instruction(t),
        ),
{
    lemma_kept_is_filter(lines(s));
}

proof fn lemma_kept_is_filter(ls: Seq<Seq<char>>)
    ensures
        kept(ls) == ls.map_values(|l: Seq<char>| trim(l)).filter(|t: Seq<char>| is_instruction(t)),
    decreases ls.len(),
{
    let m = ls.map_values(|l: Seq<char>| trim(l));
    reveal(Seq::filter);
    if ls.len() > 0 {
        lemma_kept_is_filter(ls.drop_last());
        assert(m.drop_last() =~= ls.drop_last().map_values(|l: Seq<char>| trim(l)));
        assert(m.len() == ls.len());
        assert(m.last() == trim(ls.last()));
        assert(m.filter(|t: Seq<char>| is_instruction(t)) == if is_instruction(trim(ls.last())) {
            m.drop_last().filter(|t: Seq<char>| is_instruction(t)).push(trim(ls.last()))
        } else {
            m.drop_last().filter(|t: Seq<char>| is_instruction(t))
        });
    } else {
        assert(m =~= Seq::<Seq<char>>::empty());
    }
}

/// A source of blank lines and comment lines only holds no instruction.
pub proof fn comment_only_source_is_empty(s: Seq<char>)
    requires
        forall|i: int| 0 <= i < lines(s).len() ==> !is_instruction(trim(#[trigger] lines(s)[i])),
    ensures
        instructions(s).len() == 0,
{
    lemma_kept_none(lines(s));
}

proof fn lemma_kept_none(ls: Seq<Seq<char>>)
    requires
        forall|i: int| 0 <= i < ls.len() ==> !is_instruction(trim(#[trigger] ls[i])),
    ensures
        kept(ls).len() == 0,
    decreases ls.len(),
{
    if ls.len() > 0 {
        assert(!is_instruction(trim(ls[ls.len() - 1])));
        assert forall|i: int| 0 <= i < ls.drop_last().len() implies !is_instruction(
            trim(#[trigger] ls.drop_last()[i]),
        ) by {
            assert(ls.drop_last()[i] == ls[i]);
        }
        lemma_kept_none(ls.drop_last());
    }
}

} // verus!
