//! The tail of a run's log: its last lines, capped at a number of bytes.

use vstd::prelude::*;
use vstd::utf8::{
    char_is_scalar, decode_utf8, decode_utf8_encode_utf8, decode_utf8_split, encode_scalar,
    encode_utf8, encode_utf8_decode_utf8, encode_utf8_valid_utf8, is_char_boundary,
    valid_utf8_split,
};

use crate::text::{
    chars_of, join, lemma_lines_have_no_newline, lemma_lines_of_join, lemma_lines_of_suffix, line_spans, lines, no_newline,
};

verus! {

/// The last `max_lines` lines of `content` (all of them where there are fewer).
pub open spec fn tail_lines(content: Seq<char>, max_lines: nat) -> Seq<Seq<char>> {
    let ls = lines(content);
    if ls.len() > max_lines {
        ls.skip(ls.len() - max_lines)
    } else {
        ls
    }
}

/// The last `max_lines` lines of `content`, joined with `"\n"`.
pub open spec fn tail_text(content: Seq<char>, max_lines: nat) -> Seq<char> {
    join(tail_lines(content, max_lines), seq!['\n'])
}

/// The last `max_bytes` bytes of `bytes` (all of them where there are fewer).
pub open spec fn last_bytes(bytes: Seq<u8>, max_bytes: nat) -> Seq<u8> {
    if bytes.len() > max_bytes {
        bytes.subrange(bytes.len() - max_bytes, bytes.len() as int)
    } else {
        bytes
    }
}

/// Cutting the UTF-8 encoding of `text` to its last `max_bytes` bytes starts
/// the cut at the first byte of a character (or there is nothing to cut).
pub open spec fn cut_at_char_boundary(text: Seq<char>, max_bytes: nat) -> bool {
    let b = encode_utf8(text);
    b.len() > max_bytes ==> is_char_boundary(b, b.len() - max_bytes)
}

/// The last `max_lines` lines of `content`, joined with `"\n"`.
pub fn tail_text_of(content: &str, max_lines: usize) -> (res: String)
    ensures
        res@ == tail_text(content@, max_lines as nat),
{
    let cs = chars_of(content);
    let spans = line_spans(&cs);
    let ghost ls = lines(content@);
    let count = spans.len();
    let start = count.saturating_sub(max_lines);
    let mut res = String::new();
    let newline = "\n";
    proof {
        reveal_strlit("\n");
    }
    assert(ls.subrange(start as int, start as int) =~= Seq::<Seq<char>>::empty());
    let mut k = start;
    while k < count
        invariant
            start <= k <= count,
            count == ls.len(),
            cs@ == content@,
            ls == lines(content@),
            crate::text::spans_are_lines(cs@, spans@),
            newline@ == seq!['\n'],
            res@ == join(ls.subrange(start as int, k as int), seq!['\n']),
        decreases count - k,
    {
        assert(spans@[k as int].0 <= spans@[k as int].1 <= cs@.len());
        let line = content.substring_char(spans[k].0, spans[k].1);
        assert(line@ == ls[k as int]);
        let ghost prev = ls.subrange(start as int, k as int);
        let ghost next = ls.subrange(start as int, k + 1);
        assert(next.drop_last() =~= prev);
        if k > start {
            res.append(newline);
        }
        res.append(line);
        assert(res@ =~= join(next, seq!['\n']));
        k += 1;
    }
    assert(ls.subrange(start as int, count as int) =~= tail_lines(content@, max_lines as nat));
    res
}

/// The number of bytes of the UTF-8 encoding of `s`.
pub open spec fn byte_len(s: Seq<char>) -> nat {
    encode_utf8(s).len()
}

/// The first position, from `j` on, from which the rest of `t` takes at most
/// `max_bytes` bytes of UTF-8 (the end of `t` at the latest).
pub open spec fn cap_start(t: Seq<char>, max_bytes: nat, j: int) -> int
    decreases t.len() - j,
{
    if j >= t.len() || byte_len(t.skip(j)) <= max_bytes {
        j
    } else {
        cap_start(t, max_bytes, j + 1)
    }
}

/// `t` capped at `max_bytes`: its longest suffix whose UTF-8 encoding takes at
/// most `max_bytes` bytes (a suffix of whole characters).
pub open spec fn capped(t: Seq<char>, max_bytes: nat) -> Seq<char> {
    t.skip(cap_start(t, max_bytes, 0))
}

/// `s` is a suffix of `t`.
pub open spec fn ends_with(t: Seq<char>, s: Seq<char>) -> bool {
    s.len() <= t.len() && t.subrange(t.len() - s.len(), t.len() as int) == s
}

/// The UTF-8 encoding of a concatenation is the concatenation of the encodings.
proof fn lemma_encode_concat(a: Seq<char>, b: Seq<char>)
    ensures
        encode_utf8(a + b) == encode_utf8(a) + encode_utf8(b),
    decreases a.len(),
{
    if a.len() == 0 {
        assert(a + b =~= b);
        assert(encode_utf8(a) + encode_utf8(b) =~= encode_utf8(b));
    } else {
        assert((a + b)[0] == a[0]);
        assert((a + b).drop_first() =~= a.drop_first() + b);
        lemma_encode_concat(a.drop_first(), b);
        assert(encode_utf8(a + b) =~= encode_utf8(a) + encode_utf8(b));
    }
}

/// Each character takes at least one byte.
proof fn lemma_encode_nonempty(a: Seq<char>)
    requires
        a.len() > 0,
    ensures
        byte_len(a) >= 1,
{
}

/// The rest of `t` from `j` on takes the bytes of `t[j]` and then those of the rest after it.
proof fn lemma_byte_len_step(t: Seq<char>, j: int)
    requires
        0 <= j < t.len(),
    ensures
        byte_len(t.skip(j)) == encode_scalar(t[j] as u32).len() + byte_len(t.skip(j + 1)),
{
    assert(t.skip(j)[0] == t[j]);
    assert(t.skip(j).drop_first() =~= t.skip(j + 1));
}

/// Where [`cap_start`] stops: at or after `i`, at a position whose rest fits,
/// and past every position before it whose rest does not.
proof fn lemma_cap_start(t: Seq<char>, max_bytes: nat, i: int)
    requires
        0 <= i <= t.len(),
    ensures
        i <= cap_start(t, max_bytes, i) <= t.len(),
        byte_len(t.skip(cap_start(t, max_bytes, i))) <= max_bytes,
        forall|j: int|
            i <= j < cap_start(t, max_bytes, i) ==> byte_len(#[trigger] t.skip(j)) > max_bytes,
    decreases t.len() - i,
{
    if i == t.len() {
        assert(t.skip(i) =~= Seq::<char>::empty());
    } else if byte_len(t.skip(i)) > max_bytes {
        lemma_cap_start(t, max_bytes, i + 1);
    }
}

/// No position whose rest fits lies before where [`cap_start`] stops.
proof fn lemma_cap_start_least(t: Seq<char>, max_bytes: nat, j: int)
    requires
        0 <= j <= t.len(),
        byte_len(t.skip(j)) <= max_bytes,
    ensures
        cap_start(t, max_bytes, 0) <= j,
{
    lemma_cap_start(t, max_bytes, 0);
}

/// The number of bytes of the UTF-8 encoding of `c`.
fn utf8_width(c: char) -> (w: usize)
    ensures
        w == encode_scalar(c as u32).len(),
{
    proof {
        char_is_scalar(c);
    }
    let u = c as u32;
    if u < 0x80 {
        1
    } else if u < 0x800 {
        2
    } else if u < 0x10000 {
        3
    } else {
        4
    }
}

/// `text` capped at `max_bytes`: its longest suffix of whole characters whose
/// UTF-8 encoding takes at most `max_bytes` bytes. Where the last `max_bytes`
/// bytes start on a character, that is exactly those bytes.
pub fn last_bytes_of(text: &str, max_bytes: usize) -> (res: String)
    ensures
        res@ == capped(text@, max_bytes as nat),
        byte_len(res@) <= max_bytes,
        ends_with(text@, res@),
        byte_len(text@) <= max_bytes ==> res@ == text@,
        forall|j: int|
            0 <= j < text@.len() && byte_len(text@.skip(j)) <= max_bytes ==> res@.len()
                >= text@.len() - j,
        cut_at_char_boundary(text@, max_bytes as nat) ==> encode_utf8(res@) == last_bytes(
            encode_utf8(text@),
            max_bytes as nat,
        ),
{
    let ghost t = text@;
    proof {
        lemma_cap_start(t, max_bytes as nat, 0);
        assert(t.skip(0) =~= t);
        assert forall|j: int|
            0 <= j < t.len() && byte_len(t.skip(j)) <= max_bytes implies capped(
            t,
            max_bytes as nat,
        ).len() >= t.len() - j by {
            lemma_cap_start_least(t, max_bytes as nat, j);
        }
        lemma_capped_is_last_bytes(t, max_bytes as nat);
        let c = cap_start(t, max_bytes as nat, 0);
        assert(t.subrange(t.len() - t.skip(c).len(), t.len() as int) =~= t.skip(c));
    }
    let n = text.as_bytes().len();
    if n <= max_bytes {
        return String::from_str(text);
    }
    let cs = chars_of(text);
    let mut j: usize = 0;
    let mut rest: usize = n;
    while rest > max_bytes
        invariant
            t == text@,
            cs@ == t,
            j <= cs@.len(),
            rest == byte_len(t.skip(j as int)),
            cap_start(t, max_bytes as nat, 0) == cap_start(t, max_bytes as nat, j as int),
        decreases cs@.len() - j,
    {
        if j == cs.len() {
            assert(t.skip(j as int) =~= Seq::<char>::empty());
        }
        proof {
            lemma_byte_len_step(t, j as int);
        }
        let w = utf8_width(cs[j]);
        rest = rest - w;
        j = j + 1;
    }
    let tail = text.substring_char(j, cs.len());
    assert(tail@ =~= t.skip(j as int));
    String::from_str(tail)
}

/// Where the last `max_bytes` bytes of `t`'s encoding start on a character,
/// capping `t` keeps exactly those bytes.
proof fn lemma_capped_is_last_bytes(t: Seq<char>, max_bytes: nat)
    ensures
        cut_at_char_boundary(t, max_bytes) ==> encode_utf8(capped(t, max_bytes)) == last_bytes(
            encode_utf8(t),
            max_bytes,
        ),
{
    let b = encode_utf8(t);
    lemma_cap_start(t, max_bytes, 0);
    if b.len() <= max_bytes {
        assert(t.skip(0) =~= t);
        lemma_cap_start_least(t, max_bytes, 0);
    } else if cut_at_char_boundary(t, max_bytes) {
        let k = b.len() - max_bytes;
        encode_utf8_decode_utf8(t);
        encode_utf8_valid_utf8(t);
        decode_utf8_split(b, k);
        valid_utf8_split(b, k);
        let x = decode_utf8(b.subrange(0, k));
        let y = decode_utf8(b.subrange(k, b.len() as int));
        decode_utf8_encode_utf8(b.subrange(k, b.len() as int));
        assert(t =~= x + y);
        assert(t.skip(x.len() as int) =~= y);
        lemma_cap_start_least(t, max_bytes, x.len() as int);
        assert forall|j: int| 0 <= j < x.len() implies byte_len(#[trigger] t.skip(j)) > max_bytes by {
            let mid = t.subrange(j, x.len() as int);
            assert(t.skip(j) =~= mid + y);
            lemma_encode_concat(mid, y);
            lemma_encode_nonempty(mid);
        }
        assert(cap_start(t, max_bytes, 0) == x.len());
    }
}

/// The tail holds at most `max_lines` lines.
pub proof fn tail_has_at_most_max_lines(content: Seq<char>, max_lines: nat)
    ensures
        lines(tail_text(content, max_lines)).len() <= max_lines,
{
    let ls = lines(content);
    let tl = tail_lines(content, max_lines);
    lemma_lines_have_no_newline(content);
    assert forall|k: int| 0 <= k < tl.len() implies no_newline(#[trigger] tl[k]) by {
        if ls.len() > max_lines {
            assert(tl[k] == ls[k + (ls.len() - max_lines)]);
        }
    }
    lemma_lines_of_join(tl);
}

/// The log tail shown holds at most `max_lines` lines and at most `max_bytes`
/// bytes of UTF-8, is a suffix of the joined last lines, and is all of them
/// where they fit: capping bytes off the front never adds a line.
pub proof fn log_tail_respects_both_limits(content: Seq<char>, max_lines: nat, max_bytes: nat)
    ensures
        lines(capped(tail_text(content, max_lines), max_bytes)).len() <= max_lines,
        byte_len(capped(tail_text(content, max_lines), max_bytes)) <= max_bytes,
        ends_with(tail_text(content, max_lines), capped(tail_text(content, max_lines), max_bytes)),
        byte_len(tail_text(content, max_lines)) <= max_bytes ==> capped(
            tail_text(content, max_lines),
            max_bytes,
        ) == tail_text(content, max_lines),
{
    let t = tail_text(content, max_lines);
    tail_has_at_most_max_lines(content, max_lines);
    lemma_cap_start(t, max_bytes, 0);
    let c = cap_start(t, max_bytes, 0);
    assert(t =~= t.take(c) + t.skip(c));
    lemma_lines_of_suffix(t.take(c), t.skip(c));
    assert(t.subrange(t.len() - t.skip(c).len(), t.len() as int) =~= t.skip(c));
    if byte_len(t) <= max_bytes {
        assert(t.skip(0) =~= t);
        lemma_cap_start_least(t, max_bytes, 0);
    }
}

/// Appending the same text to a text and to its suffix keeps the suffix.
proof fn lemma_ends_with_append(t: Seq<char>, x: Seq<char>, z: Seq<char>)
    requires
        ends_with(t, x),
    ensures
        ends_with(t + z, x + z),
{
    assert((t + z).subrange((t + z).len() - (x + z).len(), (t + z).len() as int) =~= t.subrange(
        t.len() - x.len(),
        t.len() as int,
    ) + z);
}

/// Joining the last pieces gives a suffix of the joined pieces.
proof fn lemma_join_skip(ls: Seq<Seq<char>>, d: int)
    requires
        0 <= d <= ls.len(),
    ensures
        ends_with(join(ls, seq!['\n']), join(ls.skip(d), seq!['\n'])),
    decreases ls.len(),
{
    let t = join(ls, seq!['\n']);
    if d == ls.len() {
        assert(ls.skip(d) =~= Seq::<Seq<char>>::empty());
        assert(t.subrange(t.len() as int, t.len() as int) =~= Seq::<char>::empty());
    } else if d == 0 {
        assert(ls.skip(0) =~= ls);
        assert(t.subrange(0, t.len() as int) =~= t);
    } else {
        let init = ls.drop_last();
        lemma_join_skip(init, d);
        let sep_last = seq!['\n'] + ls.last();
        assert(ls.skip(d).drop_last() =~= init.skip(d));
        assert(ls.skip(d).last() == ls.last());
        if d == ls.len() - 1 {
            assert(ls.skip(d) =~= seq![ls.last()]);
            assert(t =~= join(init, seq!['\n']) + sep_last);
            assert(t.subrange(t.len() - ls.last().len(), t.len() as int) =~= ls.last());
        } else {
            lemma_ends_with_append(join(init, seq!['\n']), join(init.skip(d), seq!['\n']), sep_last);
            assert(t =~= join(init, seq!['\n']) + sep_last);
            assert(join(ls.skip(d), seq!['\n']) =~= join(init.skip(d), seq!['\n']) + sep_last);
        }
    }
}

/// Lowering either limit only drops text from the front of the log tail
/// shown: the tail for the lower limits is a suffix of the tail for the higher.
pub proof fn lower_limits_keep_a_suffix(
    content: Seq<char>,
    m1: nat,
    m2: nat,
    b1: nat,
    b2: nat,
)
    requires
        m1 <= m2,
        b1 <= b2,
    ensures
        ends_with(
            capped(tail_text(content, m2), b2),
            capped(tail_text(content, m1), b1),
        ),
{
    let l1 = tail_lines(content, m1);
    let l2 = tail_lines(content, m2);
    let d = l2.len() - l1.len();
    assert(l1 =~= l2.skip(d));
    lemma_join_skip(l2, d);
    let t1 = tail_text(content, m1);
    let t2 = tail_text(content, m2);
    let o = t2.len() - t1.len();
    assert(t1 =~= t2.skip(o));
    lemma_cap_start(t1, b1, 0);
    let j1 = cap_start(t1, b1, 0);
    assert(t1.skip(j1) =~= t2.skip(o + j1));
    lemma_cap_start_least(t2, b2, o + j1);
    lemma_cap_start(t2, b2, 0);
    let j2 = cap_start(t2, b2, 0);
    let c2 = t2.skip(j2);
    assert(c2.subrange(c2.len() - t2.skip(o + j1).len(), c2.len() as int) =~= t2.skip(o + j1));
}

/// The tail is the last lines of the content, as many as there are up to
/// `max_lines`, none dropped and none changed, in order, joined with newlines.
pub proof fn tail_is_the_last_lines(content: Seq<char>, max_lines: nat)
    ensures
        tail_lines(content, max_lines).len() == if lines(content).len() < max_lines {
            lines(content).len()
        } else {
            max_lines
        },
        forall|k: int|
            0 <= k < tail_lines(content, max_lines).len() ==> #[trigger] tail_lines(
                content,
                max_lines,
            )[k] == lines(content)[lines(content).len() - tail_lines(content, max_lines).len()
                + k],
        tail_text(content, max_lines) == join(
            lines(content).subrange(
                lines(content).len() - tail_lines(content, max_lines).len(),
                lines(content).len() as int,
            ),
            seq!['\n'],
        ),
{
    let ls = lines(content);
    let tl = tail_lines(content, max_lines);
    assert(tl =~= ls.subrange(ls.len() - tl.len(), ls.len() as int));
}

} // verus!
