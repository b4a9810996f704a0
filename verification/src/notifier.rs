use vstd::prelude::*;

verus! {

/// Where notifications go: the messaging token and the channel to post to.
/// Delivering a message over the wire is the enclosing program's concern.
pub struct DiscordNotifier {
    token: String,
    channel_id: String,
}

impl DiscordNotifier {
    pub closed spec fn spec_token(self) -> Seq<char> {
        self.token@
    }

    pub closed spec fn spec_channel_id(self) -> Seq<char> {
        self.channel_id@
    }

    pub fn new(token: String, channel_id: String) -> (r: DiscordNotifier)
        ensures
            r.spec_token() == token@,
            r.spec_channel_id() == channel_id@,
    {
        DiscordNotifier { token, channel_id }
    }

    pub fn token(&self) -> (r: &String)
        ensures
            r@ == self.spec_token(),
    {
        &self.token
    }

    pub fn channel_id(&self) -> (r: &String)
        ensures
            r@ == self.spec_channel_id(),
    {
        &self.channel_id
    }
}

} // verus!
