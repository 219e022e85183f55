//! The list of tickers that a ticker file holds: one per line, white
//! space around it ignored, blank lines skipped.

use vstd::prelude::*;

use crate::chars::{chars_between, str_chars, string_from_chars, trim, trim_range};
use crate::chars::strings_view;

verus! {

/// The pieces of `s` between line feeds; the last piece is what follows
/// the last line feed.
pub open spec fn line_pieces(s: Seq<char>) -> Seq<Seq<char>>
    decreases s.len(),
{
    if s.len() == 0 {
        seq![Seq::<char>::empty()]
    } else {
        let p = line_pieces(s.drop_last());
        if s.last() == '\n' {
            p.push(Seq::<char>::empty())
        } else {
            p.update(p.len() - 1, p.last().push(s.last()))
        }
    }
}

/// The trimmed pieces that are not blank, in order.
pub open spec fn nonblank_trimmed(pieces: Seq<Seq<char>>) -> Seq<Seq<char>>
    decreases pieces.len(),
{
    if pieces.len() == 0 {
        seq![]
    } else {
        nonblank_trimmed(pieces.drop_last()) + if trim(pieces.last()).len() > 0 {
            seq![trim(pieces.last())]
        } else {
            Seq::<Seq<char>>::empty()
        }
    }
}

/// The tickers of a ticker file: its lines trimmed, blank ones left out.
pub open spec fn ticker_lines(content: Seq<char>) -> Seq<Seq<char>> {
    nonblank_trimmed(line_pieces(content))
}

/// Appends the trimmed `v[from..to]` where it is not blank.
fn push_trimmed_piece(out: &mut Vec<String>, v: &[char], from: usize, to: usize)
    requires
        from <= to <= v@.len(),
    ensures
        strings_view(final(out)@) == strings_view(old(out)@) + if trim(v@.subrange(from as int, to as int)).len()
            > 0 {
            seq![trim(v@.subrange(from as int, to as int))]
        } else {
            Seq::<Seq<char>>::empty()
        },
{
    let (a, b) = trim_range(v, from, to);
    if a < b {
        let piece = chars_between(v, a, b);
        let s = string_from_chars(piece.as_slice());
        let ghost before = out@;
        out.push(s);
        assert(strings_view(out@) =~= strings_view(before).push(s@));
    } else {
        assert(strings_view(out@) =~= strings_view(old(out)@) + Seq::<Seq<char>>::empty());
    }
}

/// The tickers that a ticker file holds: its lines trimmed, blank ones
/// left out.
pub fn parse_tickers(content: &str) -> (r: Vec<String>)
    ensures
        strings_view(r@) == ticker_lines(content@),
{
    let chars = str_chars(content);
    let ghost all = chars@;
    let mut out: Vec<String> = Vec::new();
    let mut start: usize = 0;
    let mut i: usize = 0;
    assert(all.take(0) =~= Seq::<char>::empty());
    assert(line_pieces(all.take(0)).drop_last() =~= Seq::<Seq<char>>::empty());
    assert(all.subrange(0, 0) =~= Seq::<char>::empty());
    while i < chars.len()
        invariant
            start <= i <= chars@.len(),
            all == chars@,
            line_pieces(all.take(i as int)).len() >= 1,
            line_pieces(all.take(i as int)).last() == all.subrange(start as int, i as int),
            strings_view(out@) == nonblank_trimmed(line_pieces(all.take(i as int)).drop_last()),
        decreases chars@.len() - i,
    {
        let ghost p = line_pieces(all.take(i as int));
        assert(all.take(i + 1).drop_last() =~= all.take(i as int));
        assert(all.take(i + 1).last() == all[i as int]);
        if chars[i] == '\n' {
            push_trimmed_piece(&mut out, chars.as_slice(), start, i);
            assert(line_pieces(all.take(i + 1)) == p.push(Seq::<char>::empty()));
            assert(line_pieces(all.take(i + 1)).drop_last() =~= p);
            assert(strings_view(out@) =~= nonblank_trimmed(p));
            start = i + 1;
            assert(all.subrange(start as int, i + 1) =~= Seq::<char>::empty());
        } else {
            assert(line_pieces(all.take(i + 1)) == p.update(p.len() - 1, p.last().push(all[i as int])));
            assert(line_pieces(all.take(i + 1)).drop_last() =~= p.drop_last());
            assert(all.subrange(start as int, i + 1) =~= all.subrange(start as int, i as int).push(all[i as int]));
        }
        i = i + 1;
    }
    assert(all.take(i as int) =~= all);
    let ghost p = line_pieces(all);
    push_trimmed_piece(&mut out, chars.as_slice(), start, i);
    assert(p =~= p.drop_last().push(p.last()));
    assert(strings_view(out@) =~= nonblank_trimmed(p));
    out
}

} // verus!
