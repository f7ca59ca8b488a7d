use vstd::prelude::*;

verus! {

/// What a [`Player`] means in specifications.
pub struct PlayerView {
    pub uuid: u128,
    pub nickname: Seq<char>,
}

/// What a [`Server`] means in specifications.
pub struct ServerView {
    pub slug: Seq<char>,
    pub nickname: Seq<char>,
}

/// A player as reported by a Minecraft server; its UUID is kept as the
/// 128-bit number that the UUID stands for.
#[derive(Debug)]
pub struct Player {
    pub uuid: u128,
    pub nickname: String,
}

/// A Minecraft server of the cluster: its short identifier and its display name.
#[derive(Debug)]
pub struct Server {
    pub slug: String,
    pub nickname: String,
}

impl View for Player {
    type V = PlayerView;

    open spec fn view(&self) -> PlayerView {
        PlayerView { uuid: self.uuid, nickname: self.nickname@ }
    }
}

impl View for Server {
    type V = ServerView;

    open spec fn view(&self) -> ServerView {
        ServerView { slug: self.slug@, nickname: self.nickname@ }
    }
}

impl Clone for Player {
    fn clone(&self) -> (res: Self)
        ensures
            res == *self,
    {
        Player { uuid: self.uuid, nickname: self.nickname.clone() }
    }
}

impl Clone for Server {
    fn clone(&self) -> (res: Self)
        ensures
            res == *self,
    {
        Server { slug: self.slug.clone(), nickname: self.nickname.clone() }
    }
}

impl Server {
    /// Whether two servers are the same server: same slug and same display name.
    pub fn same_as(&self, other: &Server) -> (res: bool)
        ensures
            res == (self@ == other@),
    {
        self.slug == other.slug && self.nickname == other.nickname
    }
}

} // verus!
