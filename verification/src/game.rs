//! The registry: routes each event to the aggregate of the player it
//! names, creating that aggregate lazily on first sight.

use crate::datetime::Date;
use crate::parser::PlayerEvent;
use crate::parser::PlayerEventV;
use crate::parser::spec_parse_event;
use crate::player::PlayerData;
use crate::player::PlayerDataV;
use crate::player::new_player;
use crate::player::player_with_event;
use vstd::prelude::*;

verus! {

/// All player aggregates of one run, in order of first sight.
#[derive(Debug, Clone)]
pub struct GameInfo {
    pub players: Vec<PlayerData>,
}

impl View for GameInfo {
    type V = Seq<PlayerDataV>;

    open spec fn view(&self) -> Seq<PlayerDataV> {
        self.players@.map_values(|p: PlayerData| p@)
    }
}

/// The position of the aggregate named `name`, or `-1` when there is none.
pub open spec fn find_player(g: Seq<PlayerDataV>, name: Seq<char>) -> int
    decreases g.len(),
{
    if g.len() == 0 {
        -1
    } else if g[0].name == name {
        0
    } else {
        let r = find_player(g.drop_first(), name);
        if r == -1 {
            -1
        } else {
            r + 1
        }
    }
}

/// `find_player` yields the first position whose aggregate carries the
/// name, or `-1` exactly when no aggregate does.
pub proof fn lemma_find_player(g: Seq<PlayerDataV>, name: Seq<char>)
    ensures
        -1 <= find_player(g, name) < g.len(),
        find_player(g, name) >= 0 ==> g[find_player(g, name)].name == name,
        forall|j: int| 0 <= j < find_player(g, name) ==> (#[trigger] g[j]).name != name,
        find_player(g, name) == -1 ==> forall|j: int|
            0 <= j < g.len() ==> (#[trigger] g[j]).name != name,
    decreases g.len(),
{
    if g.len() > 0 && g[0].name != name {
        lemma_find_player(g.drop_first(), name);
        assert forall|j: int| 0 <= j < find_player(g, name) implies (#[trigger] g[j]).name
            != name by {
            if j > 0 {
                assert(g.drop_first()[j - 1] == g[j]);
            }
        }
        if find_player(g, name) == -1 {
            assert forall|j: int| 0 <= j < g.len() implies (#[trigger] g[j]).name != name by {
                if j > 0 {
                    assert(g.drop_first()[j - 1] == g[j]);
                }
            }
        }
    }
}

/// Every aggregate is well formed and no two carry the same name.
pub open spec fn registry_wf(g: Seq<PlayerDataV>) -> bool {
    &&& forall|i: int| 0 <= i < g.len() ==> (#[trigger] g[i]).wf()
    &&& forall|i: int, j: int| 0 <= i < j < g.len() ==> g[i].name != g[j].name
}

/// The registry after routing `e`: the aggregate named by the event takes
/// one step of the pairing state machine, a fresh aggregate being opened
/// first when the name is new. All other aggregates are untouched.
pub open spec fn game_with_event(g: Seq<PlayerDataV>, e: PlayerEventV) -> Seq<PlayerDataV> {
    let i = find_player(g, e.name);
    if i == -1 {
        g.push(player_with_event(new_player(e.name), e))
    } else {
        g.update(i, player_with_event(g[i], e))
    }
}

/// The aggregate the event would land in, if any, has room for one more
/// session.
pub open spec fn can_take(g: Seq<PlayerDataV>, e: PlayerEventV) -> bool {
    find_player(g, e.name) >= 0 ==> g[find_player(g, e.name)].has_headroom()
}

impl GameInfo {
    pub open spec fn wf(self) -> bool {
        registry_wf(self@)
    }

    /// Creates an empty registry.
    pub fn new() -> (g: Self)
        ensures
            g@ == Seq::<PlayerDataV>::empty(),
            g.wf(),
    {
        let g = GameInfo { players: Vec::new() };
        proof {
            assert(g@ =~= Seq::<PlayerDataV>::empty());
        }
        g
    }

    /// The position of the player named `name`, scanning from the front.
    fn find(&self, name: &String) -> (r: Option<usize>)
        ensures
            match r {
                Some(i) => i < self@.len() && self@[i as int].name == name@ && forall|j: int|
                    0 <= j < i ==> (#[trigger] self@[j]).name != name@,
                None => forall|j: int| 0 <= j < self@.len() ==> (#[trigger] self@[j]).name != name@,
            },
    {
        let n = self.players.len();
        let mut i: usize = 0;
        while i < n
            invariant
                0 <= i <= n,
                n == self@.len(),
                forall|j: int| 0 <= j < i ==> (#[trigger] self@[j]).name != name@,
            decreases n - i,
        {
            if self.players[i].name == *name {
                return Some(i);
            }
            i += 1;
        }
        None
    }

    /// Routes the event to the aggregate it names, creating that aggregate
    /// first when the name has not been seen yet.
    pub fn add_event(&mut self, event: PlayerEvent)
        requires
            old(self).wf(),
            event@.wf(),
            can_take(old(self)@, event@),
        ensures
            final(self)@ == game_with_event(old(self)@, event@),
            final(self).wf(),
    {
        let ghost g = old(self)@;
        let ghost ev = event@;
        proof {
            lemma_find_player(g, ev.name);
        }
        match self.find(&event.name) {
            Some(i) => {
                proof {
                    assert(find_player(g, ev.name) == i as int);
                }
                self.players[i].add_event(event);
                proof {
                    assert(self@ =~= game_with_event(g, ev));
                }
            },
            None => {
                proof {
                    assert(find_player(g, ev.name) == -1);
                }
                let mut p = PlayerData::new(event.name.as_str());
                p.add_event(event);
                self.players.push(p);
                proof {
                    assert(self@ =~= game_with_event(g, ev));
                }
            },
        }
    }

    /// Whether the aggregate the event would land in has room for one
    /// more session; unverified callers test this before `add_event`.
    pub fn can_absorb(&self, event: &PlayerEvent) -> (b: bool)
        ensures
            b == can_take(self@, event@),
    {
        proof {
            lemma_find_player(self@, event@.name);
        }
        match self.find(&event.name) {
            Some(i) => {
                proof {
                    assert(find_player(self@, event@.name) == i as int);
                }
                self.players[i].has_headroom()
            },
            None => true,
        }
    }

    /// Whether every aggregate has room for one more session; unverified
    /// callers test this before `ingest_line`.
    pub fn all_have_headroom(&self) -> (b: bool)
        ensures
            b == forall|i: int| 0 <= i < self@.len() ==> (#[trigger] self@[i]).has_headroom(),
    {
        let n = self.players.len();
        let mut i: usize = 0;
        while i < n
            invariant
                0 <= i <= n,
                n == self@.len(),
                forall|j: int| 0 <= j < i ==> (#[trigger] self@[j]).has_headroom(),
            decreases n - i,
        {
            if !self.players[i].has_headroom() {
                proof {
                    assert(!self@[i as int].has_headroom());
                }
                return false;
            }
            i += 1;
        }
        true
    }

    /// Feeds one raw line: a line the grammar recognizes steps the
    /// registry by its event and yields `true`; any other line leaves the
    /// registry untouched and yields `false`. Never fatal.
    pub fn ingest_line(&mut self, line: &str, date: Date) -> (r: bool)
        requires
            old(self).wf(),
            date.wf(),
            forall|i: int| 0 <= i < old(self)@.len() ==> (#[trigger] old(self)@[i]).has_headroom(),
        ensures
            match spec_parse_event(line@, date) {
                Ok(ev) => r && final(self)@ == game_with_event(old(self)@, ev),
                Err(_) => !r && *final(self) == *old(self),
            },
            final(self).wf(),
    {
        match crate::parser::parse_event(line, date) {
            Ok(p) => {
                let (_name, event) = p;
                proof {
                    lemma_find_player(old(self)@, event@.name);
                }
                self.add_event(event);
                true
            },
            Err(_) => false,
        }
    }
}

} // verus!
