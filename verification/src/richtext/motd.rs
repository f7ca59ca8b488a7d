use vstd::prelude::*;

use crate::app::state::State;
use crate::richtext::list::canonical::listing_text;
use crate::richtext::list::list;
use crate::richtext::{colored, plain, segments_view, NamedColor, SegmentView, TextSegment};
use crate::types::{PlayerView, ServerView};

verus! {

/// The greeting that opens the message of the day.
pub open spec fn motd_header() -> Seq<SegmentView> {
    seq![
        SegmentView::Styled { text: "欢迎来到"@, color: Some(NamedColor::White), suggest_command: None, hover: None },
        SegmentView::Plain(" "@),
        SegmentView::Styled { text: "BDTV"@, color: Some(NamedColor::White), suggest_command: None, hover: None },
        SegmentView::Plain("\n\n"@),
        SegmentView::Styled { text: "当前在线玩家:"@, color: Some(NamedColor::White), suggest_command: None, hover: None },
        SegmentView::Plain("\n"@),
    ]
}

/// The text of the message of the day for the sightings `m`.
pub open spec fn motd_text(m: Map<(ServerView, u128), (PlayerView, u64)>) -> Seq<SegmentView> {
    motd_header() + listing_text(m)
}

/// On the same sightings, the message of the day is the greeting followed by
/// exactly the player list.
pub proof fn law_motd_is_greeting_then_list(m: Map<(ServerView, u128), (PlayerView, u64)>)
    ensures
        motd_text(m).take(motd_header().len() as int) == motd_header(),
        motd_text(m).skip(motd_header().len() as int) == listing_text(m),
{
    assert(motd_text(m).take(motd_header().len() as int) =~= motd_header());
    assert(motd_text(m).skip(motd_header().len() as int) =~= listing_text(m));
}

/// The message of the day: the greeting, then the player list.
pub fn motd(state: &State) -> (res: Vec<TextSegment>)
    ensures
        segments_view(res@) == motd_text(state@.players),
{
    let mut res: Vec<TextSegment> = Vec::new();
    res.push(colored("欢迎来到", NamedColor::White));
    res.push(plain(" "));
    res.push(colored("BDTV", NamedColor::White));
    res.push(plain("\n\n"));
    res.push(colored("当前在线玩家:", NamedColor::White));
    res.push(plain("\n"));
    let ghost header = res@;
    proof {
        assert(segments_view(header) =~= motd_header());
    }
    let mut rest = list(state);
    let ghost listed = rest@;
    res.append(&mut rest);
    proof {
        assert(segments_view(res@) =~= segments_view(header) + segments_view(listed));
    }
    res
}

} // verus!
