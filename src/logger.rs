//! Log lines kept in memory: text written to the log is cut into lines and
//! appended to a ring that drops its oldest line once it holds `max_lines`.
use std::collections::VecDeque;
use vstd::prelude::*;
use vstd::string::*;

verus! {

/// The text that lossy UTF-8 decoding gives for `b`.
pub uninterp spec fn lossy_text(b: Seq<u8>) -> Seq<char>;

/// Relies on `String::from_utf8_lossy`: its result depends on the bytes alone.
#[verifier::external_body]
fn decode_lossy(b: &[u8]) -> (r: String)
    ensures
        r@ == lossy_text(b@),
{
    String::from_utf8_lossy(b).into_owned()
}

/// A line without the carriage return that ended it.
pub open spec fn strip_cr(line: Seq<char>) -> Seq<char> {
    if line.len() > 0 && line.last() == '\r' {
        line.drop_last()
    } else {
        line
    }
}

/// The lines of `t`, the current line having begun with `cur`: split at each
/// line feed, a carriage return before the line feed removed, and the last
/// line present only when it is not empty.
pub open spec fn split_lines(t: Seq<char>, cur: Seq<char>) -> Seq<Seq<char>>
    decreases t.len(),
{
    if t.len() == 0 {
        if cur.len() == 0 {
            seq![]
        } else {
            seq![cur]
        }
    } else if t[0] == '\n' {
        seq![strip_cr(cur)] + split_lines(t.drop_first(), seq![])
    } else {
        split_lines(t.drop_first(), cur.push(t[0]))
    }
}

/// The lines of `t`.
pub open spec fn text_lines(t: Seq<char>) -> Seq<Seq<char>> {
    split_lines(t, seq![])
}

/// The ring after `line` arrives: an empty line is dropped; otherwise the
/// oldest line goes when the ring is full, and `line` is added at the end.
pub open spec fn ring_push(ring: Seq<Seq<char>>, max_lines: nat, line: Seq<char>) -> Seq<Seq<char>> {
    if line.len() == 0 {
        ring
    } else if ring.len() >= max_lines && ring.len() > 0 {
        ring.drop_first().push(line)
    } else {
        ring.push(line)
    }
}

/// The ring after each of `lines` arrives in turn.
pub open spec fn ring_after(ring: Seq<Seq<char>>, max_lines: nat, lines: Seq<Seq<char>>) -> Seq<
    Seq<char>,
>
    decreases lines.len(),
{
    if lines.len() == 0 {
        ring
    } else {
        ring_after(ring_push(ring, max_lines, lines[0]), max_lines, lines.drop_first())
    }
}

/// The text of each line held.
pub open spec fn ring_text(ring: Seq<String>) -> Seq<Seq<char>> {
    ring.map_values(|s: String| s@)
}

fn push_line(ring: &mut VecDeque<String>, max_lines: usize, line: String)
    ensures
        ring_text(final(ring)@) == ring_push(ring_text(old(ring)@), max_lines as nat, line@),
{
    let ghost before = ring_text(ring@);
    if line.unicode_len() == 0 {
        return;
    }
    if ring.len() >= max_lines && ring.len() > 0 {
        ring.pop_front();
        assert(ring_text(ring@) =~= before.drop_first());
    }
    ring.push_back(line);
    assert(ring_text(ring@) =~= ring_push(before, max_lines as nat, line@));
}

/// Appends the non-empty lines of `bytes`, decoded lossily as UTF-8, to
/// `ring`, which keeps at most `max_lines` lines (at least one line once a
/// line has arrived).
pub fn append_log_text(ring: &mut VecDeque<String>, max_lines: usize, bytes: &[u8])
    ensures
        ring_text(final(ring)@) == ring_after(
            ring_text(old(ring)@),
            max_lines as nat,
            text_lines(lossy_text(bytes@)),
        ),
{
    let text = decode_lossy(bytes);
    let t = text.as_str();
    let n = t.unicode_len();
    let ghost goal = ring_after(ring_text(ring@), max_lines as nat, text_lines(t@));
    let mut start: usize = 0;
    let mut i: usize = 0;
    proof {
        assert(t@.subrange(0, n as int) =~= t@);
        assert(t@.subrange(0, 0) =~= Seq::<char>::empty());
    }
    while i < n
        invariant
            start <= i <= n,
            n == t@.len(),
            goal == ring_after(
                ring_text(ring@),
                max_lines as nat,
                split_lines(t@.subrange(i as int, n as int), t@.subrange(start as int, i as int)),
            ),
        decreases n - i,
    {
        let ghost rest = t@.subrange(i as int, n as int);
        let ghost cur = t@.subrange(start as int, i as int);
        assert(rest.drop_first() =~= t@.subrange(i + 1, n as int));
        if t.get_char(i) == '\n' {
            let mut end = i;
            if end > start && t.get_char(end - 1) == '\r' {
                end = end - 1;
            }
            let line = t.substring_char(start, end).to_owned();
            proof {
                assert(line@ =~= strip_cr(cur));
                let ls = seq![strip_cr(cur)] + split_lines(rest.drop_first(), seq![]);
                assert(ls[0] == strip_cr(cur));
                assert(ls.drop_first() =~= split_lines(rest.drop_first(), seq![]));
            }
            push_line(ring, max_lines, line);
            start = i + 1;
            proof {
                assert(t@.subrange(start as int, i + 1) =~= Seq::<char>::empty());
            }
        } else {
            proof {
                assert(cur.push(t@[i as int]) =~= t@.subrange(start as int, i + 1));
            }
        }
        i += 1;
    }
    let line = t.substring_char(start, n).to_owned();
    proof {
        let cur = t@.subrange(start as int, n as int);
        assert(t@.subrange(n as int, n as int) =~= Seq::<char>::empty());
        assert(line@ =~= cur);
        let r0 = ring_text(ring@);
        if cur.len() > 0 {
            assert(split_lines(Seq::<char>::empty(), cur) == seq![cur]);
            assert(seq![cur].drop_first() =~= Seq::<Seq<char>>::empty());
            assert(ring_after(r0, max_lines as nat, seq![cur]) == ring_after(
                ring_push(r0, max_lines as nat, cur),
                max_lines as nat,
                Seq::<Seq<char>>::empty(),
            ));
        } else {
            assert(split_lines(Seq::<char>::empty(), cur) == Seq::<Seq<char>>::empty());
        }
    }
    push_line(ring, max_lines, line);
}

} // verus!
