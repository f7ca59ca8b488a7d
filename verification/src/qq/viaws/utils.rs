use vstd::prelude::*;

use crate::text::{decimal, decimal_usize};
use crate::types::Player;

verus! {

/// "<nickname> joined the server".
pub open spec fn join_text(nickname: Seq<char>) -> Seq<char> {
    nickname + " 加入了服务器"@
}

/// "<nickname> left the server".
pub open spec fn left_text(nickname: Seq<char>) -> Seq<char> {
    nickname + " 离开了服务器"@
}

/// "<nickname>: <content>".
pub open spec fn chat_text(nickname: Seq<char>, content: Seq<char>) -> Seq<char> {
    nickname + ": "@ + content
}

/// The bot's group card for `count` online players: its own nickname when
/// nobody is online, else "<count> online".
pub open spec fn card_text(count: nat, nickname: Seq<char>) -> Seq<char> {
    if count == 0 {
        nickname
    } else {
        decimal(count) + " 人在线"@
    }
}

/// The group message for a player who joined.
pub fn player_join(player: &Player) -> (res: String)
    ensures
        res@ == join_text(player.nickname@),
{
    let mut s = player.nickname.clone();
    s.append(" 加入了服务器");
    s
}

/// The group message for a player who left.
pub fn player_left(player: &Player) -> (res: String)
    ensures
        res@ == left_text(player.nickname@),
{
    let mut s = player.nickname.clone();
    s.append(" 离开了服务器");
    s
}

/// The group message for a player's chat message.
pub fn player_chat(player: &Player, content: &str) -> (res: String)
    ensures
        res@ == chat_text(player.nickname@, content@),
{
    let mut s = player.nickname.clone();
    s.append(": ");
    s.append(content);
    s
}

/// The bot's group card for `count` online players, given the bot's nickname.
pub fn player_count_card(count: usize, login_nickname: &str) -> (res: String)
    ensures
        res@ == card_text(count as nat, login_nickname@),
{
    if count == 0 {
        String::from_str(login_nickname)
    } else {
        let mut s = decimal_usize(count);
        s.append(" 人在线");
        s
    }
}

} // verus!
