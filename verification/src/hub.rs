//! Notification hub: typed change events fanned out to the live-update
//! channels registered for the affected account or organization. Delivery
//! is best-effort and at most once per connected channel; the channel of
//! the originating device can be excluded to avoid an echo sync. The
//! channel index is transient: it is rebuilt from re-established
//! connections after a restart and never persisted.
use vstd::prelude::*;

verus! {

/// Whose data a change event concerns.
#[derive(Clone, Copy, Debug, PartialEq, Eq, Structural)]
pub enum Subject {
    Account { account_id: u64 },
    Org { org_id: u64 },
}

/// What happened to the affected entity.
#[derive(Clone, Copy, Debug, PartialEq, Eq, Structural)]
pub enum ChangeKind {
    Created,
    Updated,
    Deleted,
}

/// What kind of entity was affected.
#[derive(Clone, Copy, Debug, PartialEq, Eq, Structural)]
pub enum EntityKind {
    Cipher,
    Collection,
    Membership,
    Organization,
}

/// A typed change notification.
#[derive(Clone, Copy, Debug, PartialEq, Eq, Structural)]
pub struct Event {
    pub subject: Subject,
    pub change: ChangeKind,
    pub entity: EntityKind,
    pub entity_id: u64,
}

/// One connected live-update channel, scoped to a subject and opened from
/// one device session.
#[derive(Clone, Copy, Debug, PartialEq, Eq, Structural)]
pub struct Channel {
    pub id: u64,
    pub subject: Subject,
    pub session_id: u64,
}

/// One event addressed to one channel.
#[derive(Clone, Copy, Debug, PartialEq, Eq, Structural)]
pub struct Delivery {
    pub channel_id: u64,
    pub event: Event,
}

/// The deliveries an event produces: one per channel registered for the
/// event's subject, in registration order, skipping the channel of the
/// originating session when one is named.
pub open spec fn fanout(chs: Seq<Channel>, ev: Event, origin: Option<u64>) -> Seq<Delivery>
    decreases chs.len(),
{
    if chs.len() == 0 {
        Seq::empty()
    } else {
        fanout(chs.drop_last(), ev, origin) + (if chs.last().subject == ev.subject && origin
            != Some(chs.last().session_id) {
            seq![Delivery { channel_id: chs.last().id, event: ev }]
        } else {
            Seq::empty()
        })
    }
}

/// Computes the deliveries an event produces over the current channels.
pub fn fanout_deliveries(chs: &Vec<Channel>, ev: Event, origin: Option<u64>) -> (r: Vec<Delivery>)
    ensures
        r@ == fanout(chs@, ev, origin),
{
    let mut out: Vec<Delivery> = Vec::new();
    let mut i: usize = 0;
    while i < chs.len()
        invariant
            i <= chs@.len(),
            out@ == fanout(chs@.take(i as int), ev, origin),
        decreases chs@.len() - i,
    {
        let ch = chs[i];
        let excluded = match origin {
            Some(sid) => sid == ch.session_id,
            None => false,
        };
        proof {
            assert(chs@.take(i + 1).drop_last() =~= chs@.take(i as int));
            assert(chs@.take(i + 1).last() == chs@[i as int]);
        }
        if ch.subject == ev.subject && !excluded {
            out.push(Delivery { channel_id: ch.id, event: ev });
            proof {
                assert(out@ =~= fanout(chs@.take(i + 1), ev, origin));
            }
        } else {
            proof {
                assert(out@ =~= fanout(chs@.take(i + 1), ev, origin));
            }
        }
        i = i + 1;
    }
    proof {
        assert(chs@.take(chs@.len() as int) =~= chs@);
    }
    out
}


} // verus!
