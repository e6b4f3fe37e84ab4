//! Which players are administrators.

use vstd::prelude::*;

verus! {

/// The configured list of administrators, by player name. No name occurs twice.
#[derive(Debug)]
pub struct Config {
    admins: Vec<String>,
}

/// Answers whether a player is an administrator.
#[derive(Debug)]
pub struct Admins {
    config: Config,
}

/// The names in a list, as a set.
pub open spec fn names_of(names: Seq<String>) -> Set<Seq<char>> {
    Set::new(|name: Seq<char>| exists|i: int| 0 <= i < names.len() && (#[trigger] names[i])@ == name)
}

/// No name occurs twice in the list.
pub open spec fn names_distinct(names: Seq<String>) -> bool {
    forall|i: int, j: int| 0 <= i < j < names.len() ==> names[i]@ != names[j]@
}

/// Whether `name` is among `names`.
fn holds_name(names: &Vec<String>, name: &String) -> (found: bool)
    ensures
        found == names_of(names@).contains(name@),
{
    let mut i: usize = 0;
    while i < names.len()
        invariant
            i <= names@.len(),
            forall|j: int| 0 <= j < i ==> (#[trigger] names@[j])@ != name@,
        decreases names@.len() - i,
    {
        if names[i] == *name {
            return true;
        }
        i = i + 1;
    }
    false
}

impl View for Config {
    type V = Set<Seq<char>>;

    closed spec fn view(&self) -> Set<Seq<char>> {
        names_of(self.admins@)
    }
}

impl View for Admins {
    type V = Set<Seq<char>>;

    closed spec fn view(&self) -> Set<Seq<char>> {
        self.config@
    }
}

impl Clone for Config {
    /// A configuration that names the same administrators.
    fn clone(&self) -> (copy: Config)
        ensures
            copy@ == self@,
    {
        proof {
            use_type_invariant(self);
        }
        let mut admins: Vec<String> = Vec::new();
        let mut i: usize = 0;
        while i < self.admins.len()
            invariant
                i <= self.admins@.len(),
                admins@.len() == i,
                forall|j: int| 0 <= j < i ==> (#[trigger] admins@[j])@ == self.admins@[j]@,
            decreases self.admins@.len() - i,
        {
            admins.push(self.admins[i].clone());
            i = i + 1;
        }
        proof {
            assert forall|n: Seq<char>| names_of(admins@).contains(n) == names_of(
                self.admins@,
            ).contains(n) by {
                if names_of(admins@).contains(n) {
                    let j = choose|j: int| 0 <= j < admins@.len() && (#[trigger] admins@[j])@ == n;
                    assert(self.admins@[j]@ == n);
                }
                if names_of(self.admins@).contains(n) {
                    let j = choose|j: int|
                        0 <= j < self.admins@.len() && (#[trigger] self.admins@[j])@ == n;
                    assert(admins@[j]@ == n);
                }
            }
            assert(names_of(admins@) =~= names_of(self.admins@));
        }
        Config { admins }
    }
}

impl Config {
    #[verifier::type_invariant]
    spec fn well_formed(self) -> bool {
        names_distinct(self.admins@)
    }

    /// The configuration in which exactly the given players are administrators.
    pub fn new(admins: Vec<String>) -> (config: Config)
        ensures
            config@ == names_of(admins@),
    {
        let mut kept: Vec<String> = Vec::new();
        let mut i: usize = 0;
        while i < admins.len()
            invariant
                i <= admins@.len(),
                names_distinct(kept@),
                names_of(kept@) == names_of(admins@.take(i as int)),
            decreases admins@.len() - i,
        {
            let ghost before = kept@;
            let name = admins[i].clone();
            let known = holds_name(&kept, &name);
            if !known {
                kept.push(name);
            }
            proof {
                let prefix = admins@.take(i as int);
                let longer = admins@.take(i + 1);
                assert forall|n: Seq<char>| names_of(kept@).contains(n) == names_of(
                    longer,
                ).contains(n) by {
                    if names_of(kept@).contains(n) {
                        let j = choose|j: int| 0 <= j < kept@.len() && (#[trigger] kept@[j])@ == n;
                        if j < before.len() {
                            assert(before[j]@ == n);
                            assert(names_of(before).contains(n));
                            assert(names_of(prefix).contains(n));
                            let k = choose|k: int|
                                0 <= k < prefix.len() && (#[trigger] prefix[k])@ == n;
                            assert(longer[k]@ == n);
                        } else {
                            assert(longer[i as int]@ == n);
                        }
                    }
                    if names_of(longer).contains(n) {
                        let k = choose|k: int| 0 <= k < longer.len() && (#[trigger] longer[k])@ == n;
                        if k < i {
                            assert(prefix[k]@ == n);
                            assert(names_of(prefix).contains(n));
                            assert(names_of(before).contains(n));
                            let j = choose|j: int|
                                0 <= j < before.len() && (#[trigger] before[j])@ == n;
                            assert(kept@[j]@ == n);
                        } else {
                            if known {
                                assert(names_of(before).contains(n));
                                let j = choose|j: int|
                                    0 <= j < before.len() && (#[trigger] before[j])@ == n;
                                assert(kept@[j]@ == n);
                            } else {
                                assert(kept@[before.len() as int]@ == n);
                            }
                        }
                    }
                }
                assert(names_of(kept@) =~= names_of(longer));
                if !known {
                    assert forall|a: int, b: int| 0 <= a < b < kept@.len() implies kept@[a]@
                        != kept@[b]@ by {
                        if b == before.len() {
                            assert(before[a]@ == kept@[a]@);
                            if before[a]@ == name@ {
                                assert(names_of(before).contains(name@));
                            }
                        }
                    }
                }
            }
            i = i + 1;
        }
        assert(admins@.take(i as int) =~= admins@);
        Config { admins: kept }
    }

    /// How many administrators there are.
    pub fn len(&self) -> (count: usize)
        ensures
            count == self@.len(),
    {
        proof {
            use_type_invariant(self);
            lemma_names_len(self.admins@);
        }
        self.admins.len()
    }
}

/// A list without repetition names as many players as it is long.
proof fn lemma_names_len(names: Seq<String>)
    requires
        names_distinct(names),
    ensures
        names_of(names).finite(),
        names_of(names).len() == names.len(),
    decreases names.len(),
{
    if names.len() == 0 {
        assert(names_of(names) =~= Set::<Seq<char>>::empty());
    } else {
        let rest = names.drop_last();
        let last = names.last()@;
        lemma_names_len(rest);
        assert(!names_of(rest).contains(last)) by {
            if names_of(rest).contains(last) {
                let j = choose|j: int| 0 <= j < rest.len() && (#[trigger] rest[j])@ == last;
                assert(names[j]@ == last);
            }
        }
        assert(names_of(names) =~= names_of(rest).insert(last)) by {
            assert forall|n: Seq<char>| names_of(names).contains(n) == names_of(rest).insert(
                last,
            ).contains(n) by {
                if names_of(names).contains(n) {
                    let j = choose|j: int| 0 <= j < names.len() && (#[trigger] names[j])@ == n;
                    if j < rest.len() {
                        assert(rest[j]@ == n);
                    }
                }
                if names_of(rest).contains(n) {
                    let j = choose|j: int| 0 <= j < rest.len() && (#[trigger] rest[j])@ == n;
                    assert(names[j]@ == n);
                }
                if n == last {
                    assert(names[names.len() - 1]@ == n);
                }
            }
        }
    }
}

impl Admins {
    /// The administrators that a configuration names.
    pub fn new(config: Config) -> (admins: Admins)
        ensures
            admins@ == config@,
    {
        Self { config }
    }

    /// Whether the player with this name is an administrator.
    pub fn is_admin(&self, player_name: &str) -> (found: bool)
        ensures
            found == self@.contains(player_name@),
    {
        let name = player_name.to_owned();
        holds_name(&self.config.admins, &name)
    }
}

} // verus!
