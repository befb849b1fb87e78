use vstd::prelude::*;
use crate::lookup::{first_index, is_first, lemma_first_index_at, lemma_first_index_none};
use crate::mdx::rig::{compare_prefix, has_prefix, lowercase_of, to_lower};

verus! {

pub open spec fn names_view(v: Seq<String>) -> Seq<Seq<char>> {
    v.map_values(|s: String| s@)
}

pub open spec fn strs_view(v: Seq<&str>) -> Seq<Seq<char>> {
    v.map_values(|s: &str| s@)
}

pub open spec fn offered_by(available: Seq<Seq<char>>) -> spec_fn(Seq<char>) -> bool {
    |c: Seq<char>| available.contains(c)
}

/// The first of `candidates` that the model's animation set offers, if any.
pub open spec fn first_offered(available: Seq<Seq<char>>, candidates: Seq<Seq<char>>) -> Option<Seq<char>> {
    match first_index(candidates, offered_by(available)) {
        Some(i) => Some(candidates[i]),
        None => None,
    }
}

/// Names tried, in order, for each of the four animation roles of a unit:
/// idle, moving, attacking, working.
pub open spec fn unit_role_names(role: int) -> Seq<Seq<char>> {
    if role == 0 {
        seq!["Stand"@, "stand"@, "idle"@, "Idle"@]
    } else if role == 1 {
        seq!["Walk"@, "walk"@, "Run"@]
    } else if role == 2 {
        seq!["Attack - 1"@, "Attack"@, "attack"@]
    } else {
        seq!["Stand Work"@, "Stand"@, "Walk"@]
    }
}

/// Names tried, in order, for each of the four animation roles of a neutral
/// creature: idle, moving, attacking, fleeing.
pub open spec fn gaia_role_names(role: int) -> Seq<Seq<char>> {
    if role == 3 {
        unit_role_names(1)
    } else {
        unit_role_names(role)
    }
}

fn offers(available: &[String], name: &str) -> (r: bool)
    ensures
        r == names_view(available@).contains(name@),
{
    let wanted = name.to_owned();
    let ghost names = names_view(available@);
    let mut j: usize = 0;
    while j < available.len()
        invariant
            names == names_view(available@),
            wanted@ == name@,
            j <= available@.len(),
            forall|k: int| 0 <= k < j ==> names[k] != name@,
        decreases available@.len() - j,
    {
        if available[j] == wanted {
            assert(names[j as int] == name@);
            return true;
        }
        j = j + 1;
    }
    proof {
        if names.contains(name@) {
            let k = choose|k: int| 0 <= k < names.len() && names[k] == name@;
            assert(names[k] != name@);
        }
    }
    false
}

/// The first of `candidates` that `available` (the names of a model's
/// animations) holds.
pub fn resolve_anim(available: &[String], candidates: &[&str]) -> (r: Option<String>)
    ensures
        match first_offered(names_view(available@), strs_view(candidates@)) {
            Some(n) => r matches Some(s) && s@ == n,
            None => r is None,
        },
{
    let ghost names = names_view(available@);
    let ghost cands = strs_view(candidates@);
    let ghost p = offered_by(names);
    let mut i: usize = 0;
    while i < candidates.len()
        invariant
            names == names_view(available@),
            cands == strs_view(candidates@),
            p == offered_by(names),
            i <= candidates@.len(),
            forall|k: int| 0 <= k < i ==> !p(#[trigger] cands[k]),
        decreases candidates@.len() - i,
    {
        let c = candidates[i];
        if offers(available, c) {
            proof {
                assert(p(cands[i as int]));
                lemma_first_index_at(cands, p, i as int);
            }
            return Some(c.to_owned());
        }
        i = i + 1;
    }
    proof {
        lemma_first_index_none(cands, p);
    }
    None
}

pub open spec fn role_matches(r: Option<String>, expected: Option<Seq<char>>) -> bool {
    match expected {
        Some(n) => r matches Some(s) && s@ == n,
        None => r is None,
    }
}

/// The animation a unit plays in each role (idle, moving, attacking,
/// working), chosen among the names the model offers.
pub fn unit_anim_map(available: &[String]) -> (r: [Option<String>; 4])
    ensures
        forall|role: int|
            0 <= role < 4 ==> role_matches(
                #[trigger] r@[role],
                first_offered(names_view(available@), unit_role_names(role)),
            ),
{
    let idle = ["Stand", "stand", "idle", "Idle"];
    let moving = ["Walk", "walk", "Run"];
    let attacking = ["Attack - 1", "Attack", "attack"];
    let working = ["Stand Work", "Stand", "Walk"];
    assert(strs_view(idle@) =~= unit_role_names(0));
    assert(strs_view(moving@) =~= unit_role_names(1));
    assert(strs_view(attacking@) =~= unit_role_names(2));
    assert(strs_view(working@) =~= unit_role_names(3));
    let r = [
        resolve_anim(available, &idle),
        resolve_anim(available, &moving),
        resolve_anim(available, &attacking),
        resolve_anim(available, &working),
    ];
    r
}

/// The animation a neutral creature plays in each role (idle, moving,
/// attacking, fleeing), chosen among the names the model offers.
pub fn gaia_anim_map(available: &[String]) -> (r: [Option<String>; 4])
    ensures
        forall|role: int|
            0 <= role < 4 ==> role_matches(
                #[trigger] r@[role],
                first_offered(names_view(available@), gaia_role_names(role)),
            ),
{
    let idle = ["Stand", "stand", "idle", "Idle"];
    let moving = ["Walk", "walk", "Run"];
    let attacking = ["Attack - 1", "Attack", "attack"];
    let fleeing = ["Walk", "walk", "Run"];
    assert(strs_view(idle@) =~= gaia_role_names(0));
    assert(strs_view(moving@) =~= gaia_role_names(1));
    assert(strs_view(attacking@) =~= gaia_role_names(2));
    assert(strs_view(fleeing@) =~= gaia_role_names(3));
    let r = [
        resolve_anim(available, &idle),
        resolve_anim(available, &moving),
        resolve_anim(available, &attacking),
        resolve_anim(available, &fleeing),
    ];
    r
}

/// Names tried, in order, when a unit's model offers none of its idle names.
pub open spec fn idle_fallback_names() -> Seq<Seq<char>> {
    seq!["Stand"@, "Stand Ready"@, "Walk"@, "Birth"@]
}

/// The animation a freshly spawned unit starts playing: its idle
/// animation, or failing that the first of the fallback names the model
/// offers, or none.
pub open spec fn starting_anim_of(available: Seq<Seq<char>>) -> Option<Seq<char>> {
    match first_offered(available, unit_role_names(0)) {
        Some(n) => Some(n),
        None => first_offered(available, idle_fallback_names()),
    }
}

/// The animation a freshly spawned unit starts playing (see
/// [`starting_anim_of`]).
pub fn starting_anim(available: &[String]) -> (r: Option<String>)
    ensures
        role_matches(r, starting_anim_of(names_view(available@))),
{
    let idle = ["Stand", "stand", "idle", "Idle"];
    assert(strs_view(idle@) =~= unit_role_names(0));
    match resolve_anim(available, &idle) {
        Some(n) => Some(n),
        None => {
            let fallback = ["Stand", "Stand Ready", "Walk", "Birth"];
            assert(strs_view(fallback@) =~= idle_fallback_names());
            resolve_anim(available, &fallback)
        },
    }
}

/// Whether an animation of this name repeats: those whose lower-case name
/// begins with "stand", "walk" or "run" loop, the others play once.
pub open spec fn loops_by_name(name: Seq<char>) -> bool {
    let lower = lowercase_of(name);
    has_prefix(lower, "stand"@) || has_prefix(lower, "walk"@) || has_prefix(lower, "run"@)
}

/// Whether the animation `name` is set to loop (see [`loops_by_name`]).
pub fn should_loop(name: &str) -> (r: bool)
    ensures
        r == loops_by_name(name@),
{
    let lower = to_lower(name);
    let (stand, _) = compare_prefix(lower.as_str(), "stand");
    let (walk, _) = compare_prefix(lower.as_str(), "walk");
    let (run, _) = compare_prefix(lower.as_str(), "run");
    stand || walk || run
}

/// Among candidates `a`, `b`, `c`, `d` (in that order of preference) the
/// first one offered is chosen.
proof fn lemma_first_offered_4(av: Seq<Seq<char>>, a: Seq<char>, b: Seq<char>, c: Seq<char>, d: Seq<char>)
    ensures
        first_offered(av, seq![a, b, c, d]) == if av.contains(a) {
            Some(a)
        } else if av.contains(b) {
            Some(b)
        } else if av.contains(c) {
            Some(c)
        } else if av.contains(d) {
            Some(d)
        } else {
            None
        },
{
    let s = seq![a, b, c, d];
    let p = offered_by(av);
    if av.contains(a) {
        assert(is_first(s, p, 0));
        lemma_first_index_at(s, p, 0);
    } else if av.contains(b) {
        assert(!p(s[0]));
        assert(is_first(s, p, 1));
        lemma_first_index_at(s, p, 1);
    } else if av.contains(c) {
        assert(!p(s[0]) && !p(s[1]));
        assert(is_first(s, p, 2));
        lemma_first_index_at(s, p, 2);
    } else if av.contains(d) {
        assert(!p(s[0]) && !p(s[1]) && !p(s[2]));
        assert(is_first(s, p, 3));
        lemma_first_index_at(s, p, 3);
    } else {
        assert forall|j: int| 0 <= j < s.len() implies !p(#[trigger] s[j]) by {
            assert(j == 0 || j == 1 || j == 2 || j == 3);
        }
        lemma_first_index_none(s, p);
    }
}

/// Among candidates `a`, `b`, `c` (in that order of preference) the first
/// one offered is chosen.
proof fn lemma_first_offered_3(av: Seq<Seq<char>>, a: Seq<char>, b: Seq<char>, c: Seq<char>)
    ensures
        first_offered(av, seq![a, b, c]) == if av.contains(a) {
            Some(a)
        } else if av.contains(b) {
            Some(b)
        } else if av.contains(c) {
            Some(c)
        } else {
            None
        },
{
    let s = seq![a, b, c];
    let p = offered_by(av);
    if av.contains(a) {
        assert(is_first(s, p, 0));
        lemma_first_index_at(s, p, 0);
    } else if av.contains(b) {
        assert(!p(s[0]));
        assert(is_first(s, p, 1));
        lemma_first_index_at(s, p, 1);
    } else if av.contains(c) {
        assert(!p(s[0]) && !p(s[1]));
        assert(is_first(s, p, 2));
        lemma_first_index_at(s, p, 2);
    } else {
        assert forall|j: int| 0 <= j < s.len() implies !p(#[trigger] s[j]) by {
            assert(j == 0 || j == 1 || j == 2);
        }
        lemma_first_index_none(s, p);
    }
}

/// Which animation each role of a unit plays, given the names its model
/// offers. Idle: "Stand", else "stand", else "idle", else "Idle". Moving:
/// "Walk", else "walk", else "Run". Attacking: "Attack - 1", else "Attack",
/// else "attack". Working: "Stand Work", else "Stand", else "Walk". A role
/// whose names are all missing plays nothing.
pub proof fn lemma_unit_roles(av: Seq<Seq<char>>)
    ensures
        first_offered(av, unit_role_names(0)) == if av.contains("Stand"@) {
            Some("Stand"@)
        } else if av.contains("stand"@) {
            Some("stand"@)
        } else if av.contains("idle"@) {
            Some("idle"@)
        } else if av.contains("Idle"@) {
            Some("Idle"@)
        } else {
            None
        },
        first_offered(av, unit_role_names(1)) == if av.contains("Walk"@) {
            Some("Walk"@)
        } else if av.contains("walk"@) {
            Some("walk"@)
        } else if av.contains("Run"@) {
            Some("Run"@)
        } else {
            None
        },
        first_offered(av, unit_role_names(2)) == if av.contains("Attack - 1"@) {
            Some("Attack - 1"@)
        } else if av.contains("Attack"@) {
            Some("Attack"@)
        } else if av.contains("attack"@) {
            Some("attack"@)
        } else {
            None
        },
        first_offered(av, unit_role_names(3)) == if av.contains("Stand Work"@) {
            Some("Stand Work"@)
        } else if av.contains("Stand"@) {
            Some("Stand"@)
        } else if av.contains("Walk"@) {
            Some("Walk"@)
        } else {
            None
        },
{
    lemma_first_offered_4(av, "Stand"@, "stand"@, "idle"@, "Idle"@);
    lemma_first_offered_3(av, "Walk"@, "walk"@, "Run"@);
    lemma_first_offered_3(av, "Attack - 1"@, "Attack"@, "attack"@);
    lemma_first_offered_3(av, "Stand Work"@, "Stand"@, "Walk"@);
}

/// A neutral creature plays its idle, moving and attacking roles as a unit
/// does, and flees with its moving animation: "Walk", else "walk", else
/// "Run".
pub proof fn lemma_gaia_roles(av: Seq<Seq<char>>)
    ensures
        forall|role: int| 0 <= role < 3 ==> #[trigger] first_offered(av, gaia_role_names(role)) == first_offered(av, unit_role_names(role)),
        first_offered(av, gaia_role_names(3)) == if av.contains("Walk"@) {
            Some("Walk"@)
        } else if av.contains("walk"@) {
            Some("walk"@)
        } else if av.contains("Run"@) {
            Some("Run"@)
        } else {
            None
        },
{
    lemma_first_offered_3(av, "Walk"@, "walk"@, "Run"@);
}

/// A freshly spawned unit starts with its idle animation when it has one,
/// and otherwise with "Stand", else "Stand Ready", else "Walk", else
/// "Birth", else none.
pub proof fn lemma_starting_anim(av: Seq<Seq<char>>)
    ensures
        starting_anim_of(av) == match first_offered(av, unit_role_names(0)) {
            Some(n) => Some(n),
            None => if av.contains("Stand"@) {
                Some("Stand"@)
            } else if av.contains("Stand Ready"@) {
                Some("Stand Ready"@)
            } else if av.contains("Walk"@) {
                Some("Walk"@)
            } else if av.contains("Birth"@) {
                Some("Birth"@)
            } else {
                None
            },
        },
{
    lemma_first_offered_4(av, "Stand"@, "Stand Ready"@, "Walk"@, "Birth"@);
}

} // verus!
