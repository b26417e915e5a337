//! Sounds that are played once, to one call.

use crate::sip::types::{CallId, SAMPLES_PER_FRAME};
use std::collections::HashMap;
use vstd::prelude::*;
use vstd::std_specs::iter::IteratorSpec;

verus! {

broadcast use vstd::std_specs::hash::group_hash_axioms;

/// A sound that is played to a call.
pub struct DirectPlayer {
    pub call: i32,
    pub samples: Vec<i16>,
    /// How many samples were played.
    pub position: usize,
}

/// What a player is.
pub struct PlayerFacts {
    pub call: i32,
    pub samples: Seq<i16>,
    pub position: int,
}

impl View for DirectPlayer {
    type V = PlayerFacts;

    open spec fn view(&self) -> PlayerFacts {
        PlayerFacts { call: self.call, samples: self.samples@, position: self.position as int }
    }
}

/// Where the next frame of a player ends.
pub open spec fn frame_end(p: PlayerFacts) -> int {
    if p.position + SAMPLES_PER_FRAME < p.samples.len() {
        p.position + SAMPLES_PER_FRAME
    } else {
        p.samples.len() as int
    }
}

/// The players, each under the number of its port.
pub struct DirectPlayers {
    players: HashMap<u64, DirectPlayer>,
}

impl DirectPlayers {
    /// The players, by port.
    pub closed spec fn view(&self) -> Map<u64, PlayerFacts> {
        self.players@.map_values(|p: DirectPlayer| p@)
    }

    /// Nothing is played.
    pub fn new() -> (r: Self)
        ensures
            r@.dom() == Set::<u64>::empty(),
    {
        let r = DirectPlayers { players: HashMap::new() };
        proof {
            assert(r@.dom() =~= Set::<u64>::empty());
        }
        r
    }

    /// Begins to play samples to a call, through a port.
    pub fn start(&mut self, port: u64, call: CallId, samples: Vec<i16>)
        ensures
            final(self)@ == old(self)@.insert(
                port,
                (PlayerFacts { call: call.num(), samples: samples@, position: 0 }),
            ),
    {
        let ghost before = self@;
        let player = DirectPlayer { call: call.get(), samples, position: 0 };
        let ghost facts = player@;
        self.players.insert(port, player);
        proof {
            assert(self@ =~= before.insert(port, facts));
        }
    }

    /// The next frame of a port: the samples that come next, or `None` for silence. A frame
    /// that ends the sound may be short.
    pub fn next_frame(&mut self, port: u64) -> (r: Option<Vec<i16>>)
        ensures
            r is Some <==> old(self)@.contains_key(port) && old(self)@[port].position < old(
                self)@[port].samples.len(),
            r is Some ==> (r->0)@ == old(self)@[port].samples.subrange(
                old(self)@[port].position,
                frame_end(old(self)@[port]),
            ) && final(self)@ == old(self)@.insert(
                port,
                (PlayerFacts { position: frame_end(old(self)@[port]), ..old(self)@[port] }),
            ),
            r is None ==> final(self)@ == old(self)@,
    {
        let ghost before = self@;
        match self.players.remove(&port) {
            None => {
                proof {
                    assert(self@ =~= before);
                }
                None
            },
            Some(p) => {
                let mut player: DirectPlayer = p;
                let ghost facts = player@;
                let pos: usize = player.position;
                if pos >= player.samples.len() {
                    self.players.insert(port, player);
                    proof {
                        assert(self@ =~= before);
                    }
                    return None;
                }
                let end: usize = if player.samples.len() - pos > SAMPLES_PER_FRAME {
                    pos + SAMPLES_PER_FRAME
                } else {
                    player.samples.len()
                };
                let mut frame: Vec<i16> = Vec::new();
                let mut i: usize = pos;
                while i < end
                    invariant
                        pos <= i <= end <= player.samples@.len(),
                        frame@ =~= player.samples@.subrange(pos as int, i as int),
                    decreases end - i,
                {
                    frame.push(player.samples[i]);
                    i = i + 1;
                }
                player.position = end;
                let ghost moved = player@;
                self.players.insert(port, player);
                proof {
                    assert(self@ =~= before.insert(port, moved));
                }
                Some(frame)
            },
        }
    }

    /// A port is gone, and what it played with it.
    pub fn port_destroyed(&mut self, port: u64)
        ensures
            final(self)@ == old(self)@.remove(port),
    {
        let ghost before = self@;
        self.players.remove(&port);
        proof {
            assert(self@ =~= before.remove(port));
        }
    }

    /// The ports that play something, each once.
    fn ports(&self) -> (r: Vec<u64>)
        ensures
            r@.no_duplicates(),
            r@.to_set() == self.players@.dom(),
    {
        let mut r: Vec<u64> = Vec::new();
        let ghost all = self.players.keys().remaining().unref();
        for k in it: self.players.keys()
            invariant
                it.seq().unref() == all,
                it.seq().len() == all.len(),
                r@ =~= all.take(it.index() as int),
                all.no_duplicates(),
                all.to_set() == self.players@.dom(),
        {
            r.push(*k);
        }
        proof {
            assert(all.take(all.len() as int) =~= all);
        }
        r
    }

    /// Ends everything that is played to a call.
    pub fn stop_direct_audio_to_call_internal(&mut self, call: CallId)
        ensures
            forall|p: u64| #[trigger]
                final(self)@.contains_key(p) <==> old(self)@.contains_key(p) && old(self)@[p].call
                    != call.num(),
            forall|p: u64| #[trigger]
                final(self)@.contains_key(p) ==> final(self)@[p] == old(self)@[p],
    {
        let ports: Vec<u64> = self.ports();
        let ghost before = self@;
        let mut i: usize = 0;
        while i < ports.len()
            invariant
                i <= ports@.len(),
                before == old(self)@,
                ports@.to_set() == before.dom(),
                forall|p: u64| #[trigger]
                    self@.contains_key(p) <==> before.contains_key(p) && !(ports@.take(
                        i as int,
                    ).contains(p) && before[p].call == call.num()),
                forall|p: u64| #[trigger] self@.contains_key(p) ==> self@[p] == before[p],
            decreases ports@.len() - i,
        {
            let port: u64 = ports[i];
            let ghost seen = ports@.take(i as int);
            let ghost now_seen = ports@.take(i + 1);
            let ghost state = self@;
            proof {
                assert forall|x: u64| #[trigger] now_seen.contains(x) <==> x == port
                    || seen.contains(x) by {
                    if seen.contains(x) {
                        let k = choose|k: int| 0 <= k < seen.len() && seen[k] == x;
                        assert(now_seen[k] == x);
                    }
                    if x == port {
                        assert(now_seen[i as int] == x);
                    }
                }
                assert(ports@.contains(port));
                assert(ports@.to_set().contains(port));
                assert(before.contains_key(port));
                assert(self@.contains_key(port) ==> self.players@.contains_key(port));
            }
            let hit: bool = match self.players.get(&port) {
                Some(p) => p.call == call.get(),
                None => false,
            };
            if hit {
                self.port_destroyed(port);
            }
            i = i + 1;
        }
        proof {
            assert(ports@.take(ports@.len() as int) =~= ports@);
            assert forall|p: u64| #[trigger] self@.contains_key(p) <==> before.contains_key(p)
                && before[p].call != call.num() by {
                assert(ports@.to_set().contains(p) <==> ports@.contains(p));
            }
        }
    }
}

/// All that a player still hands out, frame behind frame.
pub open spec fn still_to_come(p: PlayerFacts) -> Seq<i16>
    decreases p.samples.len() - p.position,
{
    if p.position < 0 || p.position >= p.samples.len() {
        Seq::empty()
    } else {
        p.samples.subrange(p.position, frame_end(p)) + still_to_come(
            PlayerFacts { position: frame_end(p), ..p },
        )
    }
}

/// A sound is played whole and once: the frames of a player, one behind the other, are its
/// samples from its position on.
pub proof fn law_a_sound_is_played_whole(p: PlayerFacts)
    requires
        0 <= p.position <= p.samples.len(),
    ensures
        still_to_come(p) == p.samples.subrange(p.position, p.samples.len() as int),
    decreases p.samples.len() - p.position,
{
    if p.position < p.samples.len() {
        let moved = PlayerFacts { position: frame_end(p), ..p };
        law_a_sound_is_played_whole(moved);
        assert(still_to_come(p) =~= p.samples.subrange(p.position, p.samples.len() as int));
    } else {
        assert(still_to_come(p) =~= p.samples.subrange(p.position, p.samples.len() as int));
    }
}

/// A frame of a sound has 320 samples, which is twenty milliseconds of it; only the last may have
/// fewer.
pub proof fn law_frames_of_a_sound_are_full(p: PlayerFacts)
    requires
        0 <= p.position <= p.samples.len(),
    ensures
        p.position <= frame_end(p) <= p.position + 320,
        frame_end(p) <= p.samples.len(),
        frame_end(p) == p.position + 320 || frame_end(p) == p.samples.len(),
{
}

} // verus!
