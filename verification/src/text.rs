//! Character-level text utilities: line splitting, joining and trimming,
//! with the semantics of `str::lines`, `[&str]::join` and `str::trim`.

use vstd::prelude::*;
use vstd::std_specs::iter::IteratorSpec;

verus! {

/// The Unicode `White_Space` property, as tested by `char::is_whitespace`.
pub open spec fn is_white_space(c: char) -> bool {
    ||| ('\u{9}' <= c && c <= '\u{d}')
    ||| c == ' '
    ||| c == '\u{85}'
    ||| c == '\u{a0}'
    ||| c == '\u{1680}'
    ||| ('\u{2000}' <= c && c <= '\u{200a}')
    ||| c == '\u{2028}'
    ||| c == '\u{2029}'
    ||| c == '\u{202f}'
    ||| c == '\u{205f}'
    ||| c == '\u{3000}'
}

/// The pieces of `s` between its `'\n'` characters (one more piece than there are newlines).
pub open spec fn split_newlines(s: Seq<char>) -> Seq<Seq<char>>
    decreases s.len(),
{
    if s.len() == 0 {
        seq![Seq::<char>::empty()]
    } else {
        let p = split_newlines(s.drop_last());
        if s.last() == '\n' {
            p.push(Seq::<char>::empty())
        } else {
            p.update(p.len() - 1, p.last().push(s.last()))
        }
    }
}

/// A line that was ended by `"\n"` loses one `'\r'` that stood right before it.
pub open spec fn strip_cr(l: Seq<char>) -> Seq<char> {
    if l.len() > 0 && l.last() == '\r' {
        l.drop_last()
    } else {
        l
    }
}

/// The lines of `s` as `str::lines` yields them: split at `"\n"` or `"\r\n"`;
/// a final line ending is optional and yields no empty last line.
pub open spec fn lines(s: Seq<char>) -> Seq<Seq<char>> {
    let p = split_newlines(s);
    let ended = p.drop_last().map_values(|l: Seq<char>| strip_cr(l));
    if p.last().len() == 0 {
        ended
    } else {
        ended.push(p.last())
    }
}

/// The pieces of `ls` joined with `sep` between each two neighbours.
pub open spec fn join(ls: Seq<Seq<char>>, sep: Seq<char>) -> Seq<char>
    decreases ls.len(),
{
    if ls.len() == 0 {
        Seq::<char>::empty()
    } else if ls.len() == 1 {
        ls[0]
    } else {
        join(ls.drop_last(), sep) + sep + ls.last()
    }
}

/// `s` without its leading white space.
pub open spec fn trim_start(s: Seq<char>) -> Seq<char>
    decreases s.len(),
{
    if s.len() > 0 && is_white_space(s[0]) {
        trim_start(s.drop_first())
    } else {
        s
    }
}

/// `s` without its trailing white space.
pub open spec fn trim_end(s: Seq<char>) -> Seq<char>
    decreases s.len(),
{
    if s.len() > 0 && is_white_space(s.last()) {
        trim_end(s.drop_last())
    } else {
        s
    }
}

/// `s` without leading and trailing white space, as `str::trim` gives it.
pub open spec fn trim(s: Seq<char>) -> Seq<char> {
    trim_end(trim_start(s))
}

/// Whether `c` has the Unicode `White_Space` property.
pub fn white_space(c: char) -> (res: bool)
    ensures
        res == is_white_space(c),
{
    ('\u{9}' <= c && c <= '\u{d}') || c == ' ' || c == '\u{85}' || c == '\u{a0}' || c
        == '\u{1680}' || ('\u{2000}' <= c && c <= '\u{200a}') || c == '\u{2028}' || c
        == '\u{2029}' || c == '\u{202f}' || c == '\u{205f}' || c == '\u{3000}'
}

/// The characters of `s`, one per element.
pub fn chars_of(s: &str) -> (res: Vec<char>)
    ensures
        res@ == s@,
{
    let mut out: Vec<char> = Vec::new();
    for c in iter: s.chars()
        invariant
            iter.seq() == s@,
            out@ == s@.take(iter.index() as int),
    {
        out.push(c);
        assert(out@ =~= s@.take(iter.index() as int + 1));
    }
    assert(out@ =~= s@);
    out
}

/// `spans` marks the lines of `s`: one span per line, in order, each a
/// half-open range of character positions whose contents are that line.
pub open spec fn spans_are_lines(s: Seq<char>, spans: Seq<(usize, usize)>) -> bool {
    &&& spans.len() == lines(s).len()
    &&& forall|k: int|
        #![trigger spans[k]]
        0 <= k < spans.len() ==> {
            &&& spans[k].0 <= spans[k].1 <= s.len()
            &&& s.subrange(spans[k].0 as int, spans[k].1 as int) == lines(s)[k]
        }
}

/// The positions of the lines of `cs`, as `str::lines` splits them.
pub fn line_spans(cs: &Vec<char>) -> (spans: Vec<(usize, usize)>)
    ensures
        spans_are_lines(cs@, spans@),
{
    let n = cs.len();
    let mut spans: Vec<(usize, usize)> = Vec::new();
    let mut start: usize = 0;
    let mut i: usize = 0;
    assert(cs@.take(0) =~= Seq::<char>::empty());
    while i < n
        invariant
            0 <= start <= i <= n,
            n == cs@.len(),
            split_newlines(cs@.take(i as int)).len() == spans@.len() + 1,
            split_newlines(cs@.take(i as int)).last() == cs@.subrange(start as int, i as int),
            forall|k: int|
                #![trigger spans@[k]]
                0 <= k < spans@.len() ==> {
                    &&& spans@[k].0 <= spans@[k].1 <= n
                    &&& cs@.subrange(spans@[k].0 as int, spans@[k].1 as int) == strip_cr(
                        split_newlines(cs@.take(i as int))[k],
                    )
                },
        decreases n - i,
    {
        let ghost p = split_newlines(cs@.take(i as int));
        let ghost old_spans = spans@;
        let ghost old_start = start;
        assert(cs@.take(i + 1).drop_last() =~= cs@.take(i as int));
        if cs[i] == '\n' {
            let end = if i > start && cs[i - 1] == '\r' {
                i - 1
            } else {
                i
            };
            proof {
                let l = cs@.subrange(start as int, i as int);
                if i > start && cs@[i - 1] == '\r' {
                    assert(l.drop_last() =~= cs@.subrange(start as int, end as int));
                } else {
                    assert(l =~= cs@.subrange(start as int, end as int));
                }
            }
            spans.push((start, end));
            start = i + 1;
            assert(split_newlines(cs@.take(i + 1)) == p.push(Seq::<char>::empty()));
            assert(cs@.subrange(start as int, i + 1) =~= Seq::<char>::empty());
            assert forall|k: int| 0 <= k < spans@.len() implies {
                &&& spans@[k].0 <= spans@[k].1 <= n
                &&& cs@.subrange(spans@[k].0 as int, spans@[k].1 as int) == strip_cr(
                    split_newlines(cs@.take(i + 1))[k],
                )
            } by {
                if k < old_spans.len() {
                    assert(spans@[k] == old_spans[k]);
                    assert(split_newlines(cs@.take(i + 1))[k] == p[k]);
                } else {
                    assert(spans@[k] == (old_start, end));
                    assert(split_newlines(cs@.take(i + 1))[k] == cs@.subrange(
                        old_start as int,
                        i as int,
                    ));
                }
            }
        } else {
            assert(split_newlines(cs@.take(i + 1)) == p.update(
                p.len() - 1,
                p.last().push(cs@[i as int]),
            ));
            assert(cs@.subrange(start as int, i + 1) =~= cs@.subrange(start as int, i as int).push(
                cs@[i as int],
            ));
            assert forall|k: int| 0 <= k < spans@.len() implies split_newlines(cs@.take(i + 1))[k]
                == p[k] by {
                assert(spans@[k] == old_spans[k]);
            }
        }
        i += 1;
    }
    assert(cs@.take(n as int) =~= cs@);
    let ghost p = split_newlines(cs@);
    let ghost ended = p.drop_last().map_values(|l: Seq<char>| strip_cr(l));
    let ghost body = spans@;
    if start < n {
        spans.push((start, n));
        assert(lines(cs@) == ended.push(p.last()));
        assert forall|k: int| 0 <= k < spans@.len() implies {
            &&& spans@[k].0 <= spans@[k].1 <= cs@.len()
            &&& cs@.subrange(spans@[k].0 as int, spans@[k].1 as int) == lines(cs@)[k]
        } by {
            if k < body.len() {
                assert(spans@[k] == body[k]);
                assert(lines(cs@)[k] == strip_cr(p[k]));
            }
        }
    } else {
        assert(lines(cs@) == ended);
        assert forall|k: int| 0 <= k < spans@.len() implies {
            &&& spans@[k].0 <= spans@[k].1 <= cs@.len()
            &&& cs@.subrange(spans@[k].0 as int, spans@[k].1 as int) == lines(cs@)[k]
        } by {
            assert(lines(cs@)[k] == strip_cr(p[k]));
        }
    }
    spans
}

/// The positions, within `a..b`, of `cs[a..b]` trimmed of white space at both ends.
pub fn trim_span(cs: &Vec<char>, a: usize, b: usize) -> (res: (usize, usize))
    requires
        a <= b <= cs@.len(),
    ensures
        a <= res.0 <= res.1 <= b,
        cs@.subrange(res.0 as int, res.1 as int) == trim(cs@.subrange(a as int, b as int)),
{
    let mut lo = a;
    while lo < b && white_space(cs[lo])
        invariant
            a <= lo <= b <= cs@.len(),
            trim_start(cs@.subrange(a as int, b as int)) == trim_start(
                cs@.subrange(lo as int, b as int),
            ),
        decreases b - lo,
    {
        assert(cs@.subrange(lo as int, b as int).drop_first() =~= cs@.subrange(lo + 1, b as int));
        lo += 1;
    }
    let mut hi = b;
    while hi > lo && white_space(cs[hi - 1])
        invariant
            a <= lo <= hi <= b <= cs@.len(),
            trim(cs@.subrange(a as int, b as int)) == trim_end(cs@.subrange(lo as int, hi as int)),
        decreases hi - lo,
    {
        assert(cs@.subrange(lo as int, hi as int).drop_last() =~= cs@.subrange(lo as int, hi - 1));
        hi -= 1;
    }
    (lo, hi)
}

/// `l` holds no `'\n'`.
pub open spec fn no_newline(l: Seq<char>) -> bool {
    forall|i: int| 0 <= i < l.len() ==> l[i] != '\n'
}

pub proof fn lemma_split_newlines_nonempty(s: Seq<char>)
    ensures
        split_newlines(s).len() >= 1,
    decreases s.len(),
{
    if s.len() > 0 {
        lemma_split_newlines_nonempty(s.drop_last());
    }
}

/// Appending text without a newline extends the last piece.
proof fn lemma_split_newlines_append(x: Seq<char>, b: Seq<char>)
    requires
        no_newline(b),
    ensures
        split_newlines(x + b) == split_newlines(x).update(
            split_newlines(x).len() - 1,
            split_newlines(x).last() + b,
        ),
    decreases b.len(),
{
    lemma_split_newlines_nonempty(x);
    let p = split_newlines(x);
    if b.len() == 0 {
        assert(x + b =~= x);
        assert(p.last() + b =~= p.last());
        assert(p.update(p.len() - 1, p.last()) =~= p);
    } else {
        let b1 = b.drop_last();
        assert((x + b).drop_last() =~= x + b1);
        assert((x + b).last() == b.last());
        lemma_split_newlines_append(x, b1);
        let q = p.update(p.len() - 1, p.last() + b1);
        assert(split_newlines(x + b) == q.update(q.len() - 1, q.last().push(b.last())));
        assert((p.last() + b1).push(b.last()) =~= p.last() + b);
        assert(q.update(q.len() - 1, q.last().push(b.last())) =~= p.update(
            p.len() - 1,
            p.last() + b,
        ));
    }
}

/// Splitting text joined with newlines gives back its pieces.
proof fn lemma_split_newlines_join(ls: Seq<Seq<char>>)
    requires
        ls.len() >= 1,
        forall|k: int| 0 <= k < ls.len() ==> no_newline(#[trigger] ls[k]),
    ensures
        split_newlines(join(ls, seq!['\n'])) == ls,
    decreases ls.len(),
{
    let e = Seq::<char>::empty();
    if ls.len() == 1 {
        lemma_split_newlines_append(e, ls[0]);
        assert(e + ls[0] =~= ls[0]);
        assert(split_newlines(e) =~= seq![e]);
        assert(seq![e].update(0, e + ls[0]) =~= ls);
    } else {
        let init = ls.drop_last();
        assert forall|k: int| 0 <= k < init.len() implies no_newline(#[trigger] init[k]) by {
            assert(init[k] == ls[k]);
        }
        lemma_split_newlines_join(init);
        let j = join(init, seq!['\n']);
        let jn = j + seq!['\n'];
        assert(jn.drop_last() =~= j);
        assert(split_newlines(jn) == init.push(e));
        lemma_split_newlines_append(jn, ls.last());
        assert(join(ls, seq!['\n']) =~= jn + ls.last());
        assert(e + ls.last() =~= ls.last());
        assert(init.push(e).update(init.len() as int, e + ls.last()) =~= ls);
    }
}

/// No piece between newlines holds a newline.
proof fn lemma_split_newlines_pieces(s: Seq<char>)
    ensures
        forall|k: int|
            0 <= k < split_newlines(s).len() ==> no_newline(#[trigger] split_newlines(s)[k]),
    decreases s.len(),
{
    if s.len() > 0 {
        lemma_split_newlines_pieces(s.drop_last());
        lemma_split_newlines_nonempty(s.drop_last());
        let p = split_newlines(s.drop_last());
        if s.last() != '\n' {
            assert forall|k: int| 0 <= k < split_newlines(s).len() implies no_newline(
                #[trigger] split_newlines(s)[k],
            ) by {
                if k == p.len() - 1 {
                    assert(no_newline(p[k]));
                } else {
                    assert(split_newlines(s)[k] == p[k]);
                }
            }
        } else {
            assert forall|k: int| 0 <= k < split_newlines(s).len() implies no_newline(
                #[trigger] split_newlines(s)[k],
            ) by {
                if k < p.len() {
                    assert(split_newlines(s)[k] == p[k]);
                }
            }
        }
    }
}

/// No line holds a newline.
pub proof fn lemma_lines_have_no_newline(s: Seq<char>)
    ensures
        forall|k: int| 0 <= k < lines(s).len() ==> no_newline(#[trigger] lines(s)[k]),
{
    lemma_split_newlines_pieces(s);
    lemma_split_newlines_nonempty(s);
    let p = split_newlines(s);
    assert forall|k: int| 0 <= k < lines(s).len() implies no_newline(#[trigger] lines(s)[k]) by {
        if k < p.len() - 1 {
            assert(lines(s)[k] == strip_cr(p[k]));
            assert(no_newline(p[k]));
        } else {
            assert(lines(s)[k] == p.last());
        }
    }
}

/// Text joined from pieces without newlines has at most as many lines as pieces.
pub proof fn lemma_lines_of_join(ls: Seq<Seq<char>>)
    requires
        forall|k: int| 0 <= k < ls.len() ==> no_newline(#[trigger] ls[k]),
    ensures
        lines(join(ls, seq!['\n'])).len() <= ls.len(),
{
    if ls.len() == 0 {
        assert(split_newlines(Seq::<char>::empty()) =~= seq![Seq::<char>::empty()]);
    } else {
        lemma_split_newlines_join(ls);
    }
}

/// How many lines `s` has: one per newline, and one more for text after the last newline.
proof fn lemma_lines_len(s: Seq<char>)
    ensures
        lines(s).len() == split_newlines(s).len() - 1 + if split_newlines(s).last().len() == 0 {
            0int
        } else {
            1int
        },
{
    lemma_split_newlines_nonempty(s);
}

/// Text without a newline is a single piece.
proof fn lemma_split_newlines_single(y: Seq<char>)
    requires
        split_newlines(y).len() == 1,
    ensures
        split_newlines(y)[0] == y,
    decreases y.len(),
{
    if y.len() > 0 {
        let y1 = y.drop_last();
        lemma_split_newlines_nonempty(y1);
        if y.last() == '\n' {
            assert(split_newlines(y).len() == split_newlines(y1).len() + 1);
        } else {
            lemma_split_newlines_single(y1);
            assert(y1.push(y.last()) =~= y);
        }
    } else {
        assert(y =~= Seq::<char>::empty());
    }
}

/// The pieces of a concatenation: as many as of both parts, less the one
/// where they meet; the last is that of the second part, or, where the second
/// part has no newline, the first part's last piece followed by it.
proof fn lemma_split_newlines_concat(x: Seq<char>, y: Seq<char>)
    ensures
        split_newlines(x + y).len() == split_newlines(x).len() + split_newlines(y).len() - 1,
        split_newlines(x + y).last() == if split_newlines(y).len() > 1 {
            split_newlines(y).last()
        } else {
            split_newlines(x).last() + y
        },
    decreases y.len(),
{
    lemma_split_newlines_nonempty(x);
    lemma_split_newlines_nonempty(y);
    if y.len() == 0 {
        assert(x + y =~= x);
        assert(split_newlines(x).last() + y =~= split_newlines(x).last());
    } else {
        let y1 = y.drop_last();
        lemma_split_newlines_concat(x, y1);
        lemma_split_newlines_nonempty(y1);
        lemma_split_newlines_nonempty(x + y1);
        assert((x + y).drop_last() =~= x + y1);
        assert((x + y).last() == y.last());
        if y.last() != '\n' && split_newlines(y1).len() == 1 {
            assert((split_newlines(x).last() + y1).push(y.last()) =~= split_newlines(x).last() + y);
        }
    }
}

/// A suffix of a text has at most as many lines as the text.
pub proof fn lemma_lines_of_suffix(x: Seq<char>, y: Seq<char>)
    ensures
        lines(y).len() <= lines(x + y).len(),
{
    lemma_split_newlines_concat(x, y);
    lemma_split_newlines_nonempty(x);
    lemma_split_newlines_nonempty(y);
    lemma_lines_len(y);
    lemma_lines_len(x + y);
    if split_newlines(y).len() == 1 {
        lemma_split_newlines_single(y);
    }
}

/// Splitting two texts joined by a newline splits each of them.
proof fn lemma_split_newlines_around_newline(a: Seq<char>, b: Seq<char>)
    ensures
        split_newlines(a + seq!['\n'] + b) == split_newlines(a) + split_newlines(b),
    decreases b.len(),
{
    lemma_split_newlines_nonempty(a);
    lemma_split_newlines_nonempty(b);
    let an = a + seq!['\n'];
    assert(an.drop_last() =~= a);
    if b.len() == 0 {
        assert(an + b =~= an);
        assert(split_newlines(b) =~= seq![Seq::<char>::empty()]);
        assert(split_newlines(a).push(Seq::<char>::empty()) =~= split_newlines(a) + split_newlines(b));
    } else {
        let b1 = b.drop_last();
        lemma_split_newlines_around_newline(a, b1);
        lemma_split_newlines_nonempty(b1);
        assert((an + b).drop_last() =~= an + b1);
        assert((an + b).last() == b.last());
        let pa = split_newlines(a);
        let pb1 = split_newlines(b1);
        if b.last() == '\n' {
            assert((pa + pb1).push(Seq::<char>::empty()) =~= pa + pb1.push(Seq::<char>::empty()));
        } else {
            let q = pa + pb1;
            assert(q.update(q.len() - 1, q.last().push(b.last())) =~= pa + pb1.update(
                pb1.len() - 1,
                pb1.last().push(b.last()),
            ));
        }
    }
}

/// The lines of two texts joined by a newline: the pieces of the first, each
/// ended there, then the lines of the second.
pub proof fn lemma_lines_around_newline(a: Seq<char>, b: Seq<char>)
    ensures
        lines(a + seq!['\n'] + b) == split_newlines(a).map_values(|l: Seq<char>| strip_cr(l))
            + lines(b),
{
    lemma_split_newlines_around_newline(a, b);
    lemma_split_newlines_nonempty(a);
    lemma_split_newlines_nonempty(b);
    let pa = split_newlines(a);
    let pb = split_newlines(b);
    let p = pa + pb;
    assert(p.last() == pb.last());
    assert(p.drop_last().map_values(|l: Seq<char>| strip_cr(l)) =~= pa.map_values(
        |l: Seq<char>| strip_cr(l),
    ) + pb.drop_last().map_values(|l: Seq<char>| strip_cr(l)));
    if pb.last().len() == 0 {
    } else {
        assert((pa.map_values(|l: Seq<char>| strip_cr(l)) + pb.drop_last().map_values(
            |l: Seq<char>| strip_cr(l),
        )).push(pb.last()) =~= pa.map_values(|l: Seq<char>| strip_cr(l)) + pb.drop_last().map_values(
            |l: Seq<char>| strip_cr(l),
        ).push(pb.last()));
    }
}

/// Trimming the start of a text with one more character at its end.
proof fn lemma_trim_start_push(s: Seq<char>, c: char)
    ensures
        trim_start(s.push(c)) == if trim_start(s).len() > 0 {
            trim_start(s).push(c)
        } else if is_white_space(c) {
            Seq::<char>::empty()
        } else {
            seq![c]
        },
    decreases s.len(),
{
    if s.len() == 0 {
        assert(s.push(c) =~= seq![c]);
        assert(seq![c].drop_first() =~= Seq::<char>::empty());
        assert(trim_start(s) == s);
        assert(trim_start(Seq::<char>::empty()) == Seq::<char>::empty());
        if is_white_space(c) {
            assert(trim_start(seq![c]) == trim_start(seq![c].drop_first()));
        } else {
            assert(trim_start(seq![c]) == seq![c]);
        }
    } else {
        assert(s.push(c)[0] == s[0]);
        if is_white_space(s[0]) {
            assert(s.push(c).drop_first() =~= s.drop_first().push(c));
            lemma_trim_start_push(s.drop_first(), c);
        } else {
            assert(trim_start(s) == s);
            assert(trim_start(s.push(c)) == s.push(c));
        }
    }
}

/// White space at the end of a text does not change its trimmed form.
pub proof fn lemma_trim_drop_white_space(l: Seq<char>)
    requires
        l.len() > 0,
        is_white_space(l.last()),
    ensures
        trim(l) == trim(l.drop_last()),
{
    let s = l.drop_last();
    assert(s.push(l.last()) =~= l);
    lemma_trim_start_push(s, l.last());
    let ts = trim_start(s);
    if ts.len() > 0 {
        assert(ts.push(l.last()).drop_last() =~= ts);
    }
}

/// Trimming the start drops characters from the front only, and leaves no
/// white space first.
proof fn lemma_trim_start_shape(s: Seq<char>)
    ensures
        trim_start(s).len() <= s.len(),
        trim_start(s) == s.skip(s.len() - trim_start(s).len()),
        trim_start(s).len() > 0 ==> !is_white_space(trim_start(s)[0]),
    decreases s.len(),
{
    if s.len() > 0 && is_white_space(s[0]) {
        lemma_trim_start_shape(s.drop_first());
        let t = trim_start(s.drop_first());
        assert(s.drop_first().skip(s.drop_first().len() - t.len()) =~= s.skip(s.len() - t.len()));
    } else {
        assert(s.skip(0) =~= s);
    }
}

/// Trimming the end drops characters from the back only, and leaves no
/// white space last.
proof fn lemma_trim_end_shape(s: Seq<char>)
    ensures
        trim_end(s).len() <= s.len(),
        trim_end(s) == s.take(trim_end(s).len() as int),
        trim_end(s).len() > 0 ==> !is_white_space(trim_end(s).last()),
    decreases s.len(),
{
    if s.len() > 0 && is_white_space(s.last()) {
        lemma_trim_end_shape(s.drop_last());
        let t = trim_end(s.drop_last());
        assert(s.drop_last().take(t.len() as int) =~= s.take(t.len() as int));
    } else {
        assert(s.take(s.len() as int) =~= s);
    }
}

/// A trimmed text is part of the text, and neither starts nor ends with
/// white space.
pub proof fn lemma_trim_shape(l: Seq<char>)
    ensures
        no_newline(l) ==> no_newline(trim(l)),
        trim(l).len() > 0 ==> !is_white_space(trim(l)[0]) && !is_white_space(trim(l).last()),
{
    lemma_trim_start_shape(l);
    let ts = trim_start(l);
    lemma_trim_end_shape(ts);
    let t = trim(l);
    if no_newline(l) {
        assert forall|i: int| 0 <= i < t.len() implies t[i] != '\n' by {
            assert(t[i] == ts[i]);
            assert(ts[i] == l[i + (l.len() - ts.len())]);
        }
    }
    if t.len() > 0 {
        assert(t[0] == ts[0]);
    }
}

/// A text that neither starts nor ends with white space is its own trimmed form.
pub proof fn lemma_trim_of_trimmed(t: Seq<char>)
    requires
        t.len() > 0,
        !is_white_space(t[0]),
        !is_white_space(t.last()),
    ensures
        trim(t) == t,
{
}

/// Joining non-empty lines that hold no newline and do not end with `'\r'`
/// gives a text whose lines are those.
pub proof fn lemma_lines_of_join_exact(es: Seq<Seq<char>>)
    requires
        forall|k: int|
            0 <= k < es.len() ==> {
                &&& no_newline(#[trigger] es[k])
                &&& es[k].len() > 0
                &&& es[k].last() != '\r'
            },
    ensures
        lines(join(es, seq!['\n'])) == es,
{
    if es.len() == 0 {
        assert(split_newlines(Seq::<char>::empty()) =~= seq![Seq::<char>::empty()]);
        assert(lines(Seq::<char>::empty()) =~= es);
    } else {
        assert forall|k: int| 0 <= k < es.len() implies no_newline(#[trigger] es[k]) by {}
        lemma_split_newlines_join(es);
        let body = es.drop_last().map_values(|l: Seq<char>| strip_cr(l));
        assert forall|k: int| 0 <= k < body.len() implies body[k] == es[k] by {
            assert(es[k].len() > 0);
        }
        assert(body.push(es.last()) =~= es);
    }
}

/// Two texts without a newline make one without a newline.
pub proof fn lemma_no_newline_concat(a: Seq<char>, b: Seq<char>)
    requires
        no_newline(a),
        no_newline(b),
    ensures
        no_newline(a + b),
{
    assert forall|i: int| 0 <= i < (a + b).len() implies (a + b)[i] != '\n' by {
        if i >= a.len() {
            assert((a + b)[i] == b[i - a.len()]);
        }
    }
}

/// Joining the pieces between newlines with newlines gives back the text.
proof fn lemma_join_split_newlines(s: Seq<char>)
    ensures
        join(split_newlines(s), seq!['\n']) == s,
    decreases s.len(),
{
    if s.len() == 0 {
        assert(split_newlines(s) =~= seq![Seq::<char>::empty()]);
        assert(s =~= Seq::<char>::empty());
    } else {
        let s1 = s.drop_last();
        lemma_join_split_newlines(s1);
        lemma_split_newlines_nonempty(s1);
        let p = split_newlines(s1);
        if s.last() == '\n' {
            let q = p.push(Seq::<char>::empty());
            assert(q.drop_last() =~= p);
            assert(join(p, seq!['\n']) + seq!['\n'] + Seq::<char>::empty() =~= s);
        } else {
            let q = p.update(p.len() - 1, p.last().push(s.last()));
            if p.len() == 1 {
                assert(join(p, seq!['\n']) == p[0]);
                assert(p[0].push(s.last()) =~= s);
            } else {
                assert(q.drop_last() =~= p.drop_last());
                assert(join(p, seq!['\n']) == join(p.drop_last(), seq!['\n']) + seq!['\n']
                    + p.last());
                assert(s1.push(s.last()) =~= s);
                assert(join(p.drop_last(), seq!['\n']) + seq!['\n'] + p.last().push(s.last())
                    =~= s);
            }
        }
    }
}

/// The lines of a text without carriage returns, joined with newlines, give
/// the text back, but for a final newline: splitting into lines drops nothing
/// and adds nothing.
pub proof fn lines_joined_give_the_text(s: Seq<char>)
    requires
        forall|i: int| 0 <= i < s.len() ==> s[i] != '\r',
    ensures
        join(lines(s), seq!['\n']) == if s.len() > 0 && s.last() == '\n' {
            s.drop_last()
        } else {
            s
        },
{
    lemma_join_split_newlines(s);
    lemma_split_newlines_nonempty(s);
    lemma_split_newlines_pieces(s);
    let p = split_newlines(s);
    lemma_split_newlines_concat(s, Seq::<char>::empty());
    let body = p.drop_last().map_values(|l: Seq<char>| strip_cr(l));
    assert forall|k: int| 0 <= k < body.len() implies body[k] == p[k] by {
        lemma_piece_has_no_cr(s, k);
    }
    assert(body =~= p.drop_last());
    if p.last().len() == 0 {
        if p.len() == 1 {
            lemma_split_newlines_single(s);
            assert(s =~= Seq::<char>::empty());
        } else {
            assert(join(p, seq!['\n']) == join(p.drop_last(), seq!['\n']) + seq!['\n'] + p.last());
            assert(s.len() > 0);
            lemma_last_piece_empty(s);
            assert(s =~= join(p.drop_last(), seq!['\n']) + seq!['\n']);
            assert(s.drop_last() =~= join(p.drop_last(), seq!['\n']));
        }
    } else {
        assert(p.drop_last().push(p.last()) =~= p);
        lemma_last_piece_nonempty(s);
    }
}

/// A piece of a text without carriage returns holds none.
proof fn lemma_piece_has_no_cr(s: Seq<char>, k: int)
    requires
        forall|i: int| 0 <= i < s.len() ==> s[i] != '\r',
        0 <= k < split_newlines(s).len(),
    ensures
        split_newlines(s)[k].len() > 0 ==> split_newlines(s)[k].last() != '\r',
    decreases s.len(),
{
    if s.len() > 0 {
        let s1 = s.drop_last();
        lemma_split_newlines_nonempty(s1);
        let p = split_newlines(s1);
        if s.last() == '\n' {
            if k < p.len() {
                lemma_piece_has_no_cr(s1, k);
            }
        } else {
            if k < p.len() - 1 {
                lemma_piece_has_no_cr(s1, k);
            }
        }
    }
}

/// The last piece is empty exactly when the text is empty or ends with a newline.
proof fn lemma_last_piece_empty(s: Seq<char>)
    requires
        s.len() > 0,
        split_newlines(s).last().len() == 0,
    ensures
        s.last() == '\n',
{
    lemma_split_newlines_nonempty(s.drop_last());
}

proof fn lemma_last_piece_nonempty(s: Seq<char>)
    requires
        split_newlines(s).last().len() > 0,
    ensures
        s.len() > 0 && s.last() != '\n',
{
    lemma_split_newlines_nonempty(s);
    if s.len() == 0 {
        assert(split_newlines(s) =~= seq![Seq::<char>::empty()]);
    }
}

/// Trimming removes white space from both ends and nothing else: the trimmed
/// text is the part of the text between its first and last characters that
/// are not white space (empty where there are none).
pub proof fn trim_removes_only_outer_white_space(s: Seq<char>)
    ensures
        ({
            let a = s.len() - trim_start(s).len();
            let b = a + trim(s).len();
            &&& 0 <= a <= b <= s.len()
            &&& trim(s) == s.subrange(a, b)
            &&& forall|i: int| 0 <= i < a ==> is_white_space(#[trigger] s[i])
            &&& forall|i: int| b <= i < s.len() ==> is_white_space(#[trigger] s[i])
            &&& trim(s).len() > 0 ==> !is_white_space(trim(s)[0]) && !is_white_space(
                trim(s).last(),
            )
        }),
{
    lemma_trim_start_ws(s);
    lemma_trim_start_shape(s);
    let ts = trim_start(s);
    lemma_trim_end_shape(ts);
    lemma_trim_end_ws(ts);
    lemma_trim_shape(s);
    let a = s.len() - ts.len();
    let t = trim(s);
    let b = a + t.len();
    assert(t =~= s.subrange(a, b));
    assert forall|i: int| b <= i < s.len() implies is_white_space(#[trigger] s[i]) by {
        assert(s[i] == ts[i - a]);
    }
}

proof fn lemma_trim_start_ws(s: Seq<char>)
    ensures
        trim_start(s).len() <= s.len(),
        forall|i: int| 0 <= i < s.len() - trim_start(s).len() ==> is_white_space(#[trigger] s[i]),
    decreases s.len(),
{
    if s.len() > 0 && is_white_space(s[0]) {
        lemma_trim_start_ws(s.drop_first());
        assert forall|i: int| 0 <= i < s.len() - trim_start(s).len() implies is_white_space(
            #[trigger] s[i],
        ) by {
            if i > 0 {
                assert(s[i] == s.drop_first()[i - 1]);
            }
        }
    }
}

proof fn lemma_trim_end_ws(s: Seq<char>)
    ensures
        trim_end(s).len() <= s.len(),
        forall|i: int| trim_end(s).len() <= i < s.len() ==> is_white_space(#[trigger] s[i]),
    decreases s.len(),
{
    if s.len() > 0 && is_white_space(s.last()) {
        lemma_trim_end_ws(s.drop_last());
        assert forall|i: int| trim_end(s).len() <= i < s.len() implies is_white_space(
            #[trigger] s[i],
        ) by {
            if i < s.len() - 1 {
                assert(s[i] == s.drop_last()[i]);
            }
        }
    }
}

} // verus!
