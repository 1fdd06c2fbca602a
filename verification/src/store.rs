//! The configuration store: named profiles of four thresholds, named
//! players bound to a profile each, and the current/default pointers.

use vstd::prelude::*;

use crate::amap::{amap, keys_unique, lemma_amap_contains, lemma_amap_index, lemma_amap_push,
    lemma_amap_remove, lemma_amap_update};

verus! {

/// A named set of four device thresholds.
#[derive(Debug, Clone, Copy)]
pub struct Profile {
    pub thresholds: [i32; 4],
}

impl PartialEq for Profile {
    fn eq(&self, other: &Profile) -> (r: bool) {
        let r = self.thresholds[0] == other.thresholds[0] && self.thresholds[1]
            == other.thresholds[1] && self.thresholds[2] == other.thresholds[2]
            && self.thresholds[3] == other.thresholds[3];
        proof {
            if r {
                assert(self.thresholds@ =~= other.thresholds@);
            }
        }
        r
    }
}

impl vstd::std_specs::cmp::PartialEqSpecImpl for Profile {
    open spec fn obeys_eq_spec() -> bool {
        true
    }

    open spec fn eq_spec(&self, other: &Profile) -> bool {
        self.thresholds@ == other.thresholds@
    }
}

/// A named binding to one profile.
#[derive(Debug)]
pub struct Player {
    pub name: String,
    pub profile: String,
}

impl Player {
    /// The pair of views a player amounts to.
    pub open spec fn view(&self) -> (Seq<char>, Seq<char>) {
        (self.name@, self.profile@)
    }
}

impl Clone for Player {
    fn clone(&self) -> (r: Self)
        ensures
            r.view() == self.view(),
    {
        Player { name: self.name.clone(), profile: self.profile.clone() }
    }
}

impl PartialEq for Player {
    fn eq(&self, other: &Player) -> (r: bool) {
        self.name == other.name && self.profile == other.profile
    }
}

impl vstd::std_specs::cmp::PartialEqSpecImpl for Player {
    open spec fn obeys_eq_spec() -> bool {
        true
    }

    open spec fn eq_spec(&self, other: &Player) -> bool {
        self.view() == other.view()
    }
}

/// The mathematical content of a store: two maps and three pointers.
pub struct StoreV {
    pub profiles: Map<Seq<char>, Seq<i32>>,
    pub players: Map<Seq<char>, (Seq<char>, Seq<char>)>,
    pub current_profile: Seq<char>,
    pub default_profile: Seq<char>,
    pub current_player: Seq<char>,
}

/// The configuration store. Entry order is kept, so the persisted form
/// is stable; the maps in the view are what commands are specified over.
#[derive(Debug)]
pub struct Profiles {
    pub profiles: Vec<(String, Profile)>,
    pub current_profile: String,
    pub default_profile: String,
    pub players: Vec<(String, Player)>,
    pub current_player: String,
}

impl Profiles {
    /// Profile entries as view pairs, in storage order.
    pub open spec fn profile_entries(&self) -> Seq<(Seq<char>, Seq<i32>)> {
        self.profiles@.map_values(|e: (String, Profile)| (e.0@, e.1.thresholds@))
    }

    /// Player entries as view pairs, in storage order.
    pub open spec fn player_entries(&self) -> Seq<(Seq<char>, (Seq<char>, Seq<char>))> {
        self.players@.map_values(|e: (String, Player)| (e.0@, e.1.view()))
    }

    pub open spec fn view(&self) -> StoreV {
        StoreV {
            profiles: amap(self.profile_entries()),
            players: amap(self.player_entries()),
            current_profile: self.current_profile@,
            default_profile: self.default_profile@,
            current_player: self.current_player@,
        }
    }

    /// Well-formed: no profile name and no player name is held twice.
    pub open spec fn wf(&self) -> bool {
        keys_unique(self.profile_entries()) && keys_unique(self.player_entries())
    }

    /// An empty store, as loading finds it when nothing was persisted.
    pub fn new() -> (r: Profiles)
        ensures
            r.wf(),
            r@.profiles == Map::<Seq<char>, Seq<i32>>::empty(),
            r@.players == Map::<Seq<char>, (Seq<char>, Seq<char>)>::empty(),
            r@.current_profile == Seq::<char>::empty(),
            r@.default_profile == Seq::<char>::empty(),
            r@.current_player == Seq::<char>::empty(),
            r.profile_entries() == Seq::<(Seq<char>, Seq<i32>)>::empty(),
            r.player_entries() == Seq::<(Seq<char>, (Seq<char>, Seq<char>))>::empty(),
    {
        let r = Profiles {
            profiles: Vec::new(),
            current_profile: String::new(),
            default_profile: String::new(),
            players: Vec::new(),
            current_player: String::new(),
        };
        proof {
            assert(r.profile_entries() =~= Seq::<(Seq<char>, Seq<i32>)>::empty());
            assert(r.player_entries() =~= Seq::<(Seq<char>, (Seq<char>, Seq<char>))>::empty());
        }
        r
    }

    /// The position of a profile entry, when its name is present.
    fn find_profile(&self, name: &String) -> (r: Option<usize>)
        requires
            self.wf(),
        ensures
            match r {
                Some(i) => i < self.profiles@.len() && self.profiles@[i as int].0@ == name@
                    && self@.profiles.contains_key(name@) && self@.profiles[name@]
                    == self.profiles@[i as int].1.thresholds@,
                None => !self@.profiles.contains_key(name@),
            },
    {
        let n = self.profiles.len();
        let mut i: usize = 0;
        while i < n
            invariant
                0 <= i <= n,
                n == self.profiles@.len(),
                self.wf(),
                forall|j: int| 0 <= j < i ==> (#[trigger] self.profiles@[j]).0@ != name@,
            decreases n - i,
        {
            if self.profiles[i].0 == *name {
                proof {
                    lemma_amap_index(self.profile_entries(), i as int);
                }
                return Some(i);
            }
            i += 1;
        }
        proof {
            lemma_amap_contains(self.profile_entries(), name@);
        }
        None
    }

    /// Whether a profile of this name exists.
    pub fn has_profile(&self, name: &String) -> (r: bool)
        requires
            self.wf(),
        ensures
            r == self@.profiles.contains_key(name@),
    {
        self.find_profile(name).is_some()
    }

    /// The thresholds of the named profile.
    pub fn profile_thresholds(&self, name: &String) -> (r: Option<[i32; 4]>)
        requires
            self.wf(),
        ensures
            match r {
                Some(t) => self@.profiles.contains_key(name@) && t@ == self@.profiles[name@],
                None => !self@.profiles.contains_key(name@),
            },
    {
        match self.find_profile(name) {
            Some(i) => Some(self.profiles[i].1.thresholds),
            None => None,
        }
    }

    /// Sets one threshold of an existing profile.
    pub fn update_profile_threshold(&mut self, name: &String, index: usize, value: i32)
        requires
            old(self).wf(),
            old(self)@.profiles.contains_key(name@),
            index < 4,
        ensures
            final(self).wf(),
            final(self)@.profiles == old(self)@.profiles.insert(
                name@,
                old(self)@.profiles[name@].update(index as int, value),
            ),
            final(self)@.players == old(self)@.players,
            final(self)@.current_profile == old(self)@.current_profile,
            final(self)@.default_profile == old(self)@.default_profile,
            final(self)@.current_player == old(self)@.current_player,
            final(self).player_entries() == old(self).player_entries(),
    {
        let i = match self.find_profile(name) {
            Some(i) => i,
            None => vstd::pervasive::unreached(),
        };
        let mut t = self.profiles[i].1.thresholds;
        t[index] = value;
        let k = self.profiles[i].0.clone();
        self.profiles[i] = (k, Profile { thresholds: t });
        proof {
            let oldE = old(self).profile_entries();
            assert(self.profile_entries() =~= oldE.update(
                i as int,
                (oldE[i as int].0, old(self)@.profiles[name@].update(index as int, value)),
            ));
            lemma_amap_update(
                oldE,
                i as int,
                old(self)@.profiles[name@].update(index as int, value),
            );
            assert(self.player_entries() =~= old(self).player_entries());
        }
    }

    /// Inserts a profile under a name not yet taken.
    pub fn add_profile(&mut self, name: &String, thresholds: [i32; 4])
        requires
            old(self).wf(),
            !old(self)@.profiles.contains_key(name@),
        ensures
            final(self).wf(),
            final(self)@.profiles == old(self)@.profiles.insert(name@, thresholds@),
            final(self)@.players == old(self)@.players,
            final(self)@.current_profile == old(self)@.current_profile,
            final(self)@.default_profile == old(self)@.default_profile,
            final(self)@.current_player == old(self)@.current_player,
            final(self).player_entries() == old(self).player_entries(),
            final(self).profile_entries() == old(self).profile_entries().push(
                (name@, thresholds@),
            ),
    {
        self.profiles.push((name.clone(), Profile { thresholds }));
        proof {
            assert(self.profile_entries() =~= old(self).profile_entries().push(
                (name@, thresholds@),
            ));
            lemma_amap_push(old(self).profile_entries(), name@, thresholds@);
            assert(self.player_entries() =~= old(self).player_entries());
        }
    }

    /// Removes the named profile.
    pub fn remove_profile(&mut self, name: &String)
        requires
            old(self).wf(),
            old(self)@.profiles.contains_key(name@),
        ensures
            final(self).wf(),
            final(self)@.profiles == old(self)@.profiles.remove(name@),
            final(self)@.players == old(self)@.players,
            final(self)@.current_profile == old(self)@.current_profile,
            final(self)@.default_profile == old(self)@.default_profile,
            final(self)@.current_player == old(self)@.current_player,
            final(self).player_entries() == old(self).player_entries(),
    {
        let i = match self.find_profile(name) {
            Some(i) => i,
            None => vstd::pervasive::unreached(),
        };
        proof {
            lemma_amap_remove(old(self).profile_entries(), i as int);
        }
        self.profiles.remove(i);
        proof {
            assert(self.profile_entries() =~= old(self).profile_entries().remove(i as int));
            assert(self.player_entries() =~= old(self).player_entries());
        }
    }

    /// The position of a player entry, when its name is present.
    fn find_player(&self, name: &String) -> (r: Option<usize>)
        requires
            self.wf(),
        ensures
            match r {
                Some(i) => i < self.players@.len() && self.players@[i as int].0@ == name@
                    && self@.players.contains_key(name@) && self@.players[name@]
                    == self.players@[i as int].1.view(),
                None => !self@.players.contains_key(name@),
            },
    {
        let n = self.players.len();
        let mut i: usize = 0;
        while i < n
            invariant
                0 <= i <= n,
                n == self.players@.len(),
                self.wf(),
                forall|j: int| 0 <= j < i ==> (#[trigger] self.players@[j]).0@ != name@,
            decreases n - i,
        {
            if self.players[i].0 == *name {
                proof {
                    lemma_amap_index(self.player_entries(), i as int);
                }
                return Some(i);
            }
            i += 1;
        }
        proof {
            lemma_amap_contains(self.player_entries(), name@);
        }
        None
    }

    /// Whether a player of this name exists.
    pub fn has_player(&self, name: &String) -> (r: bool)
        requires
            self.wf(),
        ensures
            r == self@.players.contains_key(name@),
    {
        self.find_player(name).is_some()
    }

    /// The profile name the named player is bound to.
    pub fn player_profile(&self, name: &String) -> (r: Option<String>)
        requires
            self.wf(),
        ensures
            match r {
                Some(p) => self@.players.contains_key(name@) && p@ == self@.players[name@].1,
                None => !self@.players.contains_key(name@),
            },
    {
        match self.find_player(name) {
            Some(i) => Some(self.players[i].1.profile.clone()),
            None => None,
        }
    }

    /// Inserts a player under a name not yet taken.
    pub fn add_player(&mut self, name: &String, profile: &String)
        requires
            old(self).wf(),
            !old(self)@.players.contains_key(name@),
        ensures
            final(self).wf(),
            final(self)@.players == old(self)@.players.insert(name@, (name@, profile@)),
            final(self)@.profiles == old(self)@.profiles,
            final(self)@.current_profile == old(self)@.current_profile,
            final(self)@.default_profile == old(self)@.default_profile,
            final(self)@.current_player == old(self)@.current_player,
            final(self).profile_entries() == old(self).profile_entries(),
            final(self).player_entries() == old(self).player_entries().push(
                (name@, (name@, profile@)),
            ),
    {
        self.add_player_record(name, name, profile)
    }

    /// Inserts a player record under a key not yet taken, keeping the
    /// carried name as given.
    pub fn add_player_record(&mut self, key: &String, name: &String, profile: &String)
        requires
            old(self).wf(),
            !old(self)@.players.contains_key(key@),
        ensures
            final(self).wf(),
            final(self)@.players == old(self)@.players.insert(key@, (name@, profile@)),
            final(self)@.profiles == old(self)@.profiles,
            final(self)@.current_profile == old(self)@.current_profile,
            final(self)@.default_profile == old(self)@.default_profile,
            final(self)@.current_player == old(self)@.current_player,
            final(self).profile_entries() == old(self).profile_entries(),
            final(self).player_entries() == old(self).player_entries().push(
                (key@, (name@, profile@)),
            ),
    {
        self.players.push((key.clone(), Player { name: name.clone(), profile: profile.clone() }));
        proof {
            assert(self.player_entries() =~= old(self).player_entries().push(
                (key@, (name@, profile@)),
            ));
            lemma_amap_push(old(self).player_entries(), key@, (name@, profile@));
            assert(self.profile_entries() =~= old(self).profile_entries());
        }
    }

    /// Rebinds an existing player to a profile name.
    pub fn set_player_profile(&mut self, name: &String, profile: &String)
        requires
            old(self).wf(),
            old(self)@.players.contains_key(name@),
        ensures
            final(self).wf(),
            final(self)@.players == old(self)@.players.insert(
                name@,
                (old(self)@.players[name@].0, profile@),
            ),
            final(self)@.profiles == old(self)@.profiles,
            final(self)@.current_profile == old(self)@.current_profile,
            final(self)@.default_profile == old(self)@.default_profile,
            final(self)@.current_player == old(self)@.current_player,
            final(self).profile_entries() == old(self).profile_entries(),
    {
        let i = match self.find_player(name) {
            Some(i) => i,
            None => vstd::pervasive::unreached(),
        };
        let k = self.players[i].0.clone();
        let pname = self.players[i].1.name.clone();
        self.players[i] = (k, Player { name: pname, profile: profile.clone() });
        proof {
            let oldE = old(self).player_entries();
            assert(self.player_entries() =~= oldE.update(
                i as int,
                (oldE[i as int].0, (old(self)@.players[name@].0, profile@)),
            ));
            lemma_amap_update(oldE, i as int, (old(self)@.players[name@].0, profile@));
            assert(self.profile_entries() =~= old(self).profile_entries());
        }
    }
}

impl Clone for Profiles {
    fn clone(&self) -> (r: Self)
        ensures
            r.profile_entries() == self.profile_entries(),
            r.player_entries() == self.player_entries(),
            r@ == self@,
            r.wf() == self.wf(),
    {
        let mut profiles: Vec<(String, Profile)> = Vec::new();
        let n = self.profiles.len();
        let mut i: usize = 0;
        while i < n
            invariant
                0 <= i <= n,
                n == self.profiles@.len(),
                profiles@.len() == i,
                forall|k: int|
                    0 <= k < i ==> (#[trigger] profiles@[k]).0@ == self.profiles@[k].0@
                        && profiles@[k].1.thresholds@ == self.profiles@[k].1.thresholds@,
            decreases n - i,
        {
            let name = self.profiles[i].0.clone();
            let p = self.profiles[i].1;
            profiles.push((name, p));
            i += 1;
        }
        let mut players: Vec<(String, Player)> = Vec::new();
        let m = self.players.len();
        let mut j: usize = 0;
        while j < m
            invariant
                0 <= j <= m,
                m == self.players@.len(),
                players@.len() == j,
                forall|k: int|
                    0 <= k < j ==> (#[trigger] players@[k]).0@ == self.players@[k].0@
                        && players@[k].1.view() == self.players@[k].1.view(),
            decreases m - j,
        {
            let name = self.players[j].0.clone();
            let p = self.players[j].1.clone();
            players.push((name, p));
            j += 1;
        }
        let r = Profiles {
            profiles,
            current_profile: self.current_profile.clone(),
            default_profile: self.default_profile.clone(),
            players,
            current_player: self.current_player.clone(),
        };
        proof {
            assert(r.profile_entries() =~= self.profile_entries());
            assert(r.player_entries() =~= self.player_entries());
        }
        r
    }
}

impl PartialEq for Profiles {
    fn eq(&self, other: &Profiles) -> (r: bool) {
        if !(self.current_profile == other.current_profile && self.default_profile
            == other.default_profile && self.current_player == other.current_player) {
            return false;
        }
        let n = self.profiles.len();
        if n != other.profiles.len() {
            proof {
                assert(self.profile_entries().len() == self.profiles@.len());
                assert(other.profile_entries().len() == other.profiles@.len());
            }
            return false;
        }
        let mut i: usize = 0;
        while i < n
            invariant
                0 <= i <= n,
                n == self.profiles@.len(),
                n == other.profiles@.len(),
                forall|k: int|
                    0 <= k < i ==> (#[trigger] self.profiles@[k]).0@ == other.profiles@[k].0@
                        && self.profiles@[k].1.thresholds@ == other.profiles@[k].1.thresholds@,
            decreases n - i,
        {
            proof {
                let k = i as int;
                assert(self.profile_entries()[k] == (
                    self.profiles@[k].0@,
                    self.profiles@[k].1.thresholds@,
                ));
                assert(other.profile_entries()[k] == (
                    other.profiles@[k].0@,
                    other.profiles@[k].1.thresholds@,
                ));
            }
            if !(self.profiles[i].0 == other.profiles[i].0) {
                return false;
            }
            if !(self.profiles[i].1 == other.profiles[i].1) {
                return false;
            }
            i += 1;
        }
        let m = self.players.len();
        if m != other.players.len() {
            proof {
                assert(self.player_entries().len() == self.players@.len());
                assert(other.player_entries().len() == other.players@.len());
            }
            return false;
        }
        let mut j: usize = 0;
        while j < m
            invariant
                0 <= j <= m,
                m == self.players@.len(),
                m == other.players@.len(),
                forall|k: int|
                    0 <= k < j ==> (#[trigger] self.players@[k]).0@ == other.players@[k].0@
                        && self.players@[k].1.view() == other.players@[k].1.view(),
            decreases m - j,
        {
            proof {
                let k = j as int;
                assert(self.player_entries()[k] == (self.players@[k].0@, self.players@[k].1.view()));
                assert(other.player_entries()[k] == (
                    other.players@[k].0@,
                    other.players@[k].1.view(),
                ));
            }
            if !(self.players[j].0 == other.players[j].0) {
                return false;
            }
            if !(self.players[j].1 == other.players[j].1) {
                return false;
            }
            j += 1;
        }
        proof {
            assert(self.profile_entries() =~= other.profile_entries());
            assert(self.player_entries() =~= other.player_entries());
        }
        true
    }
}

impl vstd::std_specs::cmp::PartialEqSpecImpl for Profiles {
    open spec fn obeys_eq_spec() -> bool {
        true
    }

    open spec fn eq_spec(&self, other: &Profiles) -> bool {
        self.profile_entries() == other.profile_entries() && self.player_entries()
            == other.player_entries() && self.current_profile@ == other.current_profile@
            && self.default_profile@ == other.default_profile@ && self.current_player@
            == other.current_player@
    }
}

} // verus!
