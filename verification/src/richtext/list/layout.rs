//! The layout of the player list: one line per server, the server's name
//! first, its players separated by commas.
use vstd::prelude::*;

use crate::richtext::list::{list_segments, player_segment, players_segments, server_segment};
use crate::richtext::{NamedColor, SegmentView};
use crate::types::{Player, Server};

verus! {

/// The number of line breaks among the segments.
pub open spec fn line_breaks(s: Seq<SegmentView>) -> nat
    decreases s.len(),
{
    if s.len() == 0 {
        0
    } else {
        line_breaks(s.drop_last()) + if s.last() == SegmentView::Plain("\n"@) {
            1nat
        } else {
            0nat
        }
    }
}

proof fn lemma_line_breaks_add(a: Seq<SegmentView>, b: Seq<SegmentView>)
    ensures
        line_breaks(a + b) == line_breaks(a) + line_breaks(b),
    decreases b.len(),
{
    if b.len() == 0 {
        assert(a + b =~= a);
    } else {
        lemma_line_breaks_add(a, b.drop_last());
        assert((a + b).drop_last() =~= a + b.drop_last());
        assert((a + b).last() == b.last());
    }
}

/// The white comma and space written between two players.
pub open spec fn comma() -> SegmentView {
    SegmentView::Styled { text: ", "@, color: Some(NamedColor::White), suggest_command: None, hover: None }
}

/// The players of a server, with a comma between every two consecutive
/// ones: player, comma, player, ..., player.
pub proof fn law_players_alternate(ps: Seq<Player>)
    ensures
        ps.len() == 0 ==> players_segments(ps).len() == 0,
        ps.len() > 0 ==> players_segments(ps).len() == 2 * ps.len() - 1,
        forall|a: int| 0 <= a < ps.len() ==> players_segments(ps)[2 * a] == player_segment((#[trigger] ps[a])@),
        forall|a: int| 0 <= a < ps.len() - 1 ==> #[trigger] players_segments(ps)[2 * a + 1] == comma(),
        line_breaks(players_segments(ps)) == 0,
    decreases ps.len(),
{
    if ps.len() > 1 {
        let init = ps.drop_last();
        let n = ps.len() - 1;
        law_players_alternate(init);
        let prev = players_segments(init);
        let sep = comma();
        let cur = players_segments(ps);
        assert(cur == prev.push(sep).push(player_segment(ps[n]@)));
        assert forall|a: int| 0 <= a < ps.len() implies cur[2 * a] == player_segment((#[trigger] ps[a])@) by {
            if a < n {
                assert(init[a] == ps[a]);
                assert(prev[2 * a] == player_segment(init[a]@));
            }
        }
        assert forall|a: int| 0 <= a < ps.len() - 1 implies #[trigger] cur[2 * a + 1] == sep by {
            if a < n - 1 {
                assert(init[a] == ps[a]);
                assert(prev[2 * a + 1] == sep);
            }
        }
        lemma_line_breaks_add(prev, seq![sep, player_segment(ps[n]@)]);
        assert(cur =~= prev + seq![sep, player_segment(ps[n]@)]);
        assert(seq![sep, player_segment(ps[n]@)].drop_last() =~= seq![sep]);
        assert(seq![sep].drop_last() =~= Seq::<SegmentView>::empty());
        assert(line_breaks(Seq::<SegmentView>::empty()) == 0);
        assert(line_breaks(seq![sep]) == 0);
        assert(line_breaks(seq![sep, player_segment(ps[n]@)]) == 0);
    } else if ps.len() == 1 {
        assert(players_segments(ps).drop_last() =~= Seq::<SegmentView>::empty());
        assert(line_breaks(Seq::<SegmentView>::empty()) == 0);
    } else {
        assert(players_segments(ps) =~= Seq::<SegmentView>::empty());
    }
}

/// A list of `g >= 1` servers holds exactly `g - 1` line breaks.
proof fn lemma_list_breaks(gs: Seq<(Server, Vec<Player>)>)
    ensures
        gs.len() == 0 ==> line_breaks(list_segments(gs)) == 0,
        gs.len() >= 1 ==> line_breaks(list_segments(gs)) == gs.len() - 1,
    decreases gs.len(),
{
    reveal_strlit(" ");
    reveal_strlit("\n");
    if gs.len() >= 1 {
        let init = gs.drop_last();
        let g = gs.last();
        lemma_list_breaks(init);
        law_players_alternate(g.1@);
        let head: Seq<SegmentView> = if gs.len() == 1 {
            seq![]
        } else {
            seq![SegmentView::Plain("\n"@)]
        };
        let name = seq![server_segment(g.0@), SegmentView::Plain(" "@)];
        assert(list_segments(gs) == list_segments(init) + (head + name + players_segments(g.1@)));
        lemma_line_breaks_add(list_segments(init), head + name + players_segments(g.1@));
        lemma_line_breaks_add(head + name, players_segments(g.1@));
        lemma_line_breaks_add(head, name);
        assert(" "@ != "\n"@) by {
            assert(" "@[0] != "\n"@[0]);
        }
        assert(name.drop_last() =~= seq![server_segment(g.0@)]);
        assert(seq![server_segment(g.0@)].drop_last() =~= Seq::<SegmentView>::empty());
        assert(line_breaks(Seq::<SegmentView>::empty()) == 0);
        assert(line_breaks(seq![server_segment(g.0@)]) == 0);
        assert(line_breaks(name) == 0);
        if gs.len() > 1 {
            assert(head.drop_last() =~= Seq::<SegmentView>::empty());
            assert(line_breaks(head) == 1);
        } else {
            assert(init.len() == 0);
            assert(line_breaks(head) == 0);
        }
    }
}

/// A server's line: its name, a space, and its players.
pub open spec fn first_line(g: (Server, Vec<Player>)) -> Seq<SegmentView> {
    seq![server_segment(g.0@), SegmentView::Plain(" "@)] + players_segments(g.1@)
}

proof fn lemma_list_step(gs: Seq<(Server, Vec<Player>)>, i: int)
    requires
        1 <= i < gs.len(),
    ensures
        list_segments(gs.take(i + 1)) == list_segments(gs.take(i)).push(SegmentView::Plain("\n"@)) + first_line(gs[i]),
{
    let t = gs.take(i + 1);
    assert(t.drop_last() =~= gs.take(i));
    assert(t.last() == gs[i]);
    let pre = list_segments(gs.take(i));
    assert(list_segments(t) == pre + (seq![SegmentView::Plain("\n"@)] + seq![server_segment(gs[i].0@), SegmentView::Plain(" "@)]
        + players_segments(gs[i].1@)));
    assert(pre + (seq![SegmentView::Plain("\n"@)] + seq![server_segment(gs[i].0@), SegmentView::Plain(" "@)] + players_segments(
        gs[i].1@,
    )) =~= pre.push(SegmentView::Plain("\n"@)) + first_line(gs[i]));
}

/// The list grows a line per server: the first server's line is its name, a
/// space and its players; every later server adds exactly one line break,
/// then its name, a space and its players. So a list of `g >= 1` servers
/// holds exactly `g - 1` line breaks.
pub proof fn law_list_lines(gs: Seq<(Server, Vec<Player>)>)
    ensures
        gs.len() >= 1 ==> list_segments(gs.take(1)) == first_line(gs[0]),
        forall|i: int| 1 <= i < gs.len() ==> list_segments(gs.take(i + 1)) == list_segments(gs.take(i)).push(
            SegmentView::Plain("\n"@),
        ) + first_line(#[trigger] gs[i]),
        list_segments(gs.take(gs.len() as int)) == list_segments(gs),
        gs.len() == 0 ==> line_breaks(list_segments(gs)) == 0,
        gs.len() >= 1 ==> line_breaks(list_segments(gs)) == gs.len() - 1,
{
    reveal_strlit(" ");
    reveal_strlit("\n");
    assert(gs.take(gs.len() as int) =~= gs);
    if gs.len() >= 1 {
        let t = gs.take(1);
        assert(t.drop_last() =~= Seq::<(Server, Vec<Player>)>::empty());
        assert(t.last() == gs[0]);
        assert(list_segments(t.drop_last()) =~= Seq::<SegmentView>::empty());
        assert(list_segments(t) =~= first_line(gs[0]));
    }
    assert forall|i: int| 1 <= i < gs.len() implies list_segments(gs.take(i + 1)) == list_segments(gs.take(i)).push(
        SegmentView::Plain("\n"@),
    ) + first_line(#[trigger] gs[i]) by {
        lemma_list_step(gs, i);
    }
    lemma_list_breaks(gs);
}

} // verus!
