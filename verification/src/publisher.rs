//! Publish channels. The library decides which channels are attempted for
//! a new episode and builds the channel payloads; the deliveries
//! themselves are network calls and live outside the library.

use vstd::prelude::*;
use crate::text::push_char;

verus! {

/// A notification channel.
#[derive(Debug, Clone, Copy, PartialEq, Eq, Structural)]
pub enum Channel {
    Telegram,
    Mastodon,
}

/// One delivery attempt per configured channel, Telegram first: the exact
/// channels a new episode is announced on, each exactly once.
pub fn delivery_plan(telegram: bool, mastodon: bool) -> (plan: Vec<Channel>)
    ensures
        plan@ == ({
            if telegram && mastodon {
                seq![Channel::Telegram, Channel::Mastodon]
            } else if telegram {
                seq![Channel::Telegram]
            } else if mastodon {
                seq![Channel::Mastodon]
            } else {
                Seq::<Channel>::empty()
            }
        }),
{
    let mut plan: Vec<Channel> = Vec::new();
    if telegram {
        plan.push(Channel::Telegram);
    }
    if mastodon {
        plan.push(Channel::Mastodon);
    }
    proof {
        if telegram && mastodon {
            assert(plan@ =~= seq![Channel::Telegram, Channel::Mastodon]);
        } else if telegram {
            assert(plan@ =~= seq![Channel::Telegram]);
        } else if mastodon {
            assert(plan@ =~= seq![Channel::Mastodon]);
        } else {
            assert(plan@ =~= Seq::<Channel>::empty());
        }
    }
    plan
}

/// The address an episode's audio is downloaded from.
pub fn audio_url(identifier: &str, filename: &str) -> (r: String)
    ensures
        r@ == "https://archive.org/download/"@ + identifier@ + "/"@ + filename@,
{
    let mut s = String::from_str("https://archive.org/download/");
    s.append(identifier);
    s.append("/");
    s.append(filename);
    s
}

/// The Telegram channel: an access token and the chat the episode is
/// announced in.
#[derive(Debug, Clone)]
pub struct Telegram {
    /// The bot's access token.
    pub access_token: String,
    /// The chat announcements go to.
    pub chat_id: String,
}

impl Telegram {
    /// A channel for the given token and chat.
    pub fn new(access_token: &str, chat_id: &str) -> (t: Telegram)
        ensures
            t.access_token@ == access_token@,
            t.chat_id@ == chat_id@,
    {
        Telegram {
            access_token: String::from_str(access_token),
            chat_id: String::from_str(chat_id),
        }
    }

    /// The address audio messages are sent to for this channel.
    pub fn send_audio_endpoint(&self) -> (r: String)
        ensures
            r@ == "https://api.telegram.org/bot"@ + self.access_token@ + "/sendAudio"@,
    {
        let mut s = String::from_str("https://api.telegram.org/bot");
        s.append(self.access_token.as_str());
        s.append("/sendAudio");
        s
    }

    /// The caption made safe for the message body: every double quote
    /// becomes a single quote.
    pub fn prepare(text: &str) -> (r: String)
        ensures
            r@ == text@.map_values(
                |c: char|
                    if c == '"' {
                        '\''
                    } else {
                        c
                    },
            ),
    {
        let n = text.unicode_len();
        let mut out = String::new();
        let mut i: usize = 0;
        while i < n
            invariant
                n == text@.len(),
                0 <= i <= n,
                out@ == text@.take(i as int).map_values(
                    |c: char|
                        if c == '"' {
                            '\''
                        } else {
                            c
                        },
                ),
            decreases n - i,
        {
            let c = text.get_char(i);
            let m = if c == '"' {
                '\''
            } else {
                c
            };
            push_char(&mut out, m);
            proof {
                assert(out@ =~= text@.take(i + 1 as int).map_values(
                    |c: char|
                        if c == '"' {
                            '\''
                        } else {
                            c
                        },
                ));
            }
            i = i + 1;
        }
        proof {
            assert(text@.take(n as int) =~= text@);
        }
        out
    }
}

/// The Mastodon channel: the instance posted to and an access token.
#[derive(Debug, Clone)]
pub struct Mastodon {
    /// The instance's host name.
    pub instance: String,
    /// The account's access token.
    pub access_token: String,
}

impl Mastodon {
    /// A channel for the given token and instance.
    pub fn new(access_token: &str, instance: &str) -> (m: Mastodon)
        ensures
            m.access_token@ == access_token@,
            m.instance@ == instance@,
    {
        Mastodon {
            instance: String::from_str(instance),
            access_token: String::from_str(access_token),
        }
    }

    /// The address statuses are posted to for this channel.
    pub fn status_endpoint(&self) -> (r: String)
        ensures
            r@ == "https://"@ + self.instance@ + "/api/v1/statuses"@,
    {
        let mut s = String::from_str("https://");
        s.append(self.instance.as_str());
        s.append("/api/v1/statuses");
        s
    }
}

} // verus!
