//! Whether a headset is already busy with someone else, asked the standard way.
//!
//! "Multipoint" is a marketing word for a peripheral holding connections to two
//! hosts at once. It is a **peripheral-side** feature: nothing in BAP, ASCS or
//! PACS lets a host enable it, disable it, or ask a headset to switch to it.
//!
//! What *is* standard:
//!
//! - **Available Audio Contexts.** A device publishes which contexts it can
//!   accept at this moment, as distinct from the ones it supports in principle.
//!   A headset already streaming from a phone withdraws Media from its available
//!   set, and restores it when the phone stops.
//! - **Taking over by asking.** The specified way for a host to start playing is
//!   to configure its ASEs and send Enable. On a device that supports
//!   multipoint, that is also how the switch happens.
//! - **Giving the other host a turn.** Releasing our ASEs while leaving the ACL
//!   connection up is what lets the other device play.
//!
//! So what is worth knowing, and saying, is which of these states the headset is
//! in: a headset busy with a phone otherwise produces a stream-setup failure
//! that reads as broken hardware.

use crate::bap::ascs::{CONTEXT_CONVERSATIONAL, CONTEXT_GAME, CONTEXT_MEDIA};
use crate::link::AudioCapabilities;
use crate::text::{hex, push_hex};
use vstd::prelude::*;
use vstd::string::*;

verus! {

/// What the headset's published contexts say about its availability.
#[derive(Debug, Clone, Copy, PartialEq, Eq, Structural)]
pub enum Availability {
    /// It can take a media stream now.
    Ready,
    /// It supports media but is not offering it at the moment, which in practice
    /// means another host is using it.
    BusyElsewhere,
    /// It never supported media playback in the first place. A different problem
    /// entirely, and one no amount of waiting will fix.
    NoMediaSupport,
    /// It publishes no context information, so there is nothing to conclude.
    ///
    /// Deliberately not folded into `Ready`: "I checked and it is free" and "I
    /// could not check" are different claims, and reporting the second as the
    /// first is how a diagnostic loses its value.
    Unknown,
}

/// The word the app matches on.
pub open spec fn availability_word(availability: Availability) -> Seq<char> {
    match availability {
        Availability::Ready => "ready"@,
        Availability::BusyElsewhere => "busy-elsewhere"@,
        Availability::NoMediaSupport => "no-media-support"@,
        Availability::Unknown => "unknown"@,
    }
}

/// The sentence a person reads.
pub open spec fn availability_sentence(availability: Availability) -> Seq<char> {
    match availability {
        Availability::Ready => "headphones are free and ready to play"@,
        Availability::BusyElsewhere =>
            "headphones currently report media unavailable; another device may be using them"@,
        Availability::NoMediaSupport => "headphones do not support media playback over LE Audio"@,
        Availability::Unknown =>
            "headphones do not publish their available contexts, so their state cannot be read"@,
    }
}

impl Availability {
    /// Whether it is worth attempting a stream at all.
    ///
    /// True for everything except a device that has never supported media.
    /// A busy device is still worth asking: Enable is the specified way to take
    /// over, and a device that will hand the stream across does so in response
    /// to exactly that request.
    pub fn worth_attempting(self) -> (yes: bool)
        ensures
            yes == !(self is NoMediaSupport),
    {
        match self {
            Availability::NoMediaSupport => false,
            _ => true,
        }
    }

    pub fn as_str(self) -> (word: &'static str)
        ensures
            word@ == availability_word(self),
    {
        match self {
            Availability::Ready => "ready",
            Availability::BusyElsewhere => "busy-elsewhere",
            Availability::NoMediaSupport => "no-media-support",
            Availability::Unknown => "unknown",
        }
    }

    /// A sentence for a person, saying what it means rather than what it is.
    pub fn explain(self) -> (sentence: &'static str)
        ensures
            sentence@ == availability_sentence(self),
    {
        match self {
            Availability::Ready => "headphones are free and ready to play",
            Availability::BusyElsewhere =>
                "headphones currently report media unavailable; another device may be using them",
            Availability::NoMediaSupport => "headphones do not support media playback over LE Audio",
            Availability::Unknown =>
                "headphones do not publish their available contexts, so their state cannot be read",
        }
    }
}

/// Whether a context bitmap holds Media.
pub open spec fn offers_media(contexts: u16) -> bool {
    contexts & CONTEXT_MEDIA != 0
}

/// What two context bitmaps, the momentary and the permanent one, say.
pub open spec fn availability_of(available: Option<u16>, supported: Option<u16>) -> Availability {
    match available {
        None => Availability::Unknown,
        Some(now) => if offers_media(now) {
            Availability::Ready
        } else {
            match supported {
                None => Availability::Unknown,
                Some(ever) => if offers_media(ever) {
                    Availability::BusyElsewhere
                } else {
                    Availability::NoMediaSupport
                },
            }
        },
    }
}

/// Reads the availability of a device from what it has published.
pub fn availability(capabilities: &AudioCapabilities) -> (availability: Availability)
    ensures
        availability == availability_of(
            capabilities@.available_contexts,
            capabilities@.supported_contexts,
        ),
{
    let available = match capabilities.available_contexts {
        Some(available) => available,
        None => return Availability::Unknown,
    };
    if available & CONTEXT_MEDIA != 0 {
        return Availability::Ready;
    }
    // Media is missing. Whether that is temporary depends on whether the device
    // ever claimed to support it: Supported Audio Contexts is the permanent
    // list, Available is the momentary one.
    match capabilities.supported_contexts {
        Some(supported) => if supported & CONTEXT_MEDIA != 0 {
            Availability::BusyElsewhere
        } else {
            Availability::NoMediaSupport
        },
        // Supported was not readable, so the absence cannot be interpreted.
        // Some firmware publishes an empty Available set while idle, and calling
        // that "busy" would be a guess dressed up as a reading.
        None => Availability::Unknown,
    }
}

/// A device is called free or busy only on what it published: whenever either
/// word is used, Available Audio Contexts was read, and "busy" also needs
/// Supported Audio Contexts to hold Media.
pub proof fn nothing_is_concluded_unread(available: Option<u16>, supported: Option<u16>)
    ensures
        availability_of(None, supported) is Unknown,
        availability_of(available, supported) is Ready ==> available is Some && offers_media(
            available->0,
        ),
        availability_of(available, supported) is BusyElsewhere ==> available is Some
            && !offers_media(available->0) && supported is Some && offers_media(supported->0),
{
}

/// A list in words with one more entry.
pub open spec fn listed(list: Seq<char>, entry: Seq<char>) -> Seq<char> {
    if list.len() == 0 {
        entry
    } else {
        list + ", "@ + entry
    }
}

/// The contexts that have names.
pub open spec fn named_contexts(contexts: u16) -> Seq<char> {
    let media = if contexts & CONTEXT_MEDIA != 0 {
        listed(""@, "media"@)
    } else {
        ""@
    };
    let calls = if contexts & CONTEXT_CONVERSATIONAL != 0 {
        listed(media, "calls"@)
    } else {
        media
    };
    if contexts & CONTEXT_GAME != 0 {
        listed(calls, "game"@)
    } else {
        calls
    }
}

/// The bits that have no name.
pub open spec fn unnamed_contexts(contexts: u16) -> u16 {
    contexts & !(CONTEXT_MEDIA | CONTEXT_CONVERSATIONAL | CONTEXT_GAME)
}

/// The contexts in a bitmap as a log line names them.
pub open spec fn contexts_text(contexts: u16) -> Seq<char> {
    if contexts == 0 {
        "none"@
    } else if unnamed_contexts(contexts) != 0 {
        listed(
            named_contexts(contexts),
            "other (0x"@ + hex(unnamed_contexts(contexts) as nat, 4) + ")"@,
        )
    } else {
        named_contexts(contexts)
    }
}

/// Names the contexts in a bitmap, for a log line a person can read.
pub fn describe_contexts(contexts: u16) -> (text: String)
    ensures
        text@ == contexts_text(contexts),
{
    proof {
        reveal_strlit("");
        reveal_strlit("media");
        reveal_strlit("calls");
        reveal_strlit("game");
    }
    if contexts == 0 {
        return String::from_str("none");
    }
    let mut text = String::from_str("");
    let mut any = false;
    if contexts & CONTEXT_MEDIA != 0 {
        text.append("media");
        any = true;
    }
    let ghost media = text@;
    assert(media =~= if contexts & CONTEXT_MEDIA != 0 {
        listed(""@, "media"@)
    } else {
        ""@
    });
    if contexts & CONTEXT_CONVERSATIONAL != 0 {
        if any {
            text.append(", ");
        }
        text.append("calls");
        any = true;
    }
    let ghost calls = text@;
    assert(calls =~= if contexts & CONTEXT_CONVERSATIONAL != 0 {
        listed(media, "calls"@)
    } else {
        media
    });
    if contexts & CONTEXT_GAME != 0 {
        if any {
            text.append(", ");
        }
        text.append("game");
        any = true;
    }
    assert(text@ =~= named_contexts(contexts));
    let ghost named = text@;
    // Anything the list above does not name still counts. Printing the leftover
    // bits keeps the line honest about how much of the value was understood.
    let rest = contexts & !(CONTEXT_MEDIA | CONTEXT_CONVERSATIONAL | CONTEXT_GAME);
    if rest != 0 {
        if any {
            text.append(", ");
        }
        text.append("other (0x");
        push_hex(&mut text, rest as u64, 4);
        text.append(")");
        assert(text@ =~= listed(named, "other (0x"@ + hex(rest as nat, 4) + ")"@));
    }
    text
}

/// A device is ready when it offers media now, which is the third bit of its
/// contexts; busy when it does not but could; unable when it never could; and
/// otherwise nothing is known of it.
pub proof fn availability_is_what_the_contexts_say(
    available: Option<u16>,
    supported: Option<u16>,
)
    ensures
        ({
            let now = available is Some && available->0 / 4 % 2 == 1;
            let ever = supported is Some && supported->0 / 4 % 2 == 1;
            availability_of(available, supported) == if available is None {
                Availability::Unknown
            } else if now {
                Availability::Ready
            } else if supported is None {
                Availability::Unknown
            } else if ever {
                Availability::BusyElsewhere
            } else {
                Availability::NoMediaSupport
            }
        }),
{
    assert(forall|contexts: u16|
        (#[trigger] (contexts & 4u16) != 0) == (contexts / 4 % 2 == 1)) by (bit_vector);
    if available is Some {
        assert(offers_media(available->0) == (available->0 & 4u16 != 0));
    }
    if supported is Some {
        assert(offers_media(supported->0) == (supported->0 & 4u16 != 0));
    }
}

/// The contexts that have names are listed by them, media before calls before games,
/// and the rest as a number that holds none of the named bits.
pub proof fn the_rest_holds_no_named_context(contexts: u16)
    ensures
        unnamed_contexts(contexts) <= contexts,
        unnamed_contexts(contexts) / 2 % 8 == 0,
        contexts - unnamed_contexts(contexts) == 2 * (contexts / 2 % 8),
        contexts_text(0) == "none"@,
{
    assert((contexts & !(0x0004u16 | 0x0002 | 0x0008)) <= contexts && (contexts & !(0x0004u16
        | 0x0002 | 0x0008)) / 2 % 8 == 0 && contexts - (contexts & !(0x0004u16 | 0x0002 | 0x0008))
        == 2 * (contexts / 2 % 8)) by (bit_vector);
    assert(unnamed_contexts(contexts) == contexts & !(0x0004u16 | 0x0002 | 0x0008));
}

} // verus!
