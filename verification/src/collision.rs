use std::collections::HashMap;
use std::collections::HashSet;
use vstd::prelude::*;

use crate::behavior::Behavior;

verus! {

broadcast use vstd::std_specs::hash::group_hash_axioms;

/// A contact event between two entities, each named by its bit pattern.
#[derive(Clone, Copy, PartialEq, Eq, Structural, Debug)]
pub enum CollisionEvent {
    /// The two entities began to touch.
    Started(u64, u64),
    /// The two entities stopped touching.
    Stopped(u64, u64),
}

/// The entities of all started contacts, each contact contributing its two
/// entities in order.
pub open spec fn started_entities(events: Seq<CollisionEvent>) -> Seq<u64>
    decreases events.len(),
{
    if events.len() == 0 {
        seq![]
    } else {
        let prev = started_entities(events.drop_last());
        match events.last() {
            CollisionEvent::Started(a, b) => prev.push(a).push(b),
            CollisionEvent::Stopped(_, _) => prev,
        }
    }
}

/// The partner of each entity: every started contact `(a, b)` records
/// `a -> b` and then `b -> a`, later contacts overriding earlier ones.
pub open spec fn started_pairs(events: Seq<CollisionEvent>) -> Map<u64, u64>
    decreases events.len(),
{
    if events.len() == 0 {
        Map::empty()
    } else {
        let prev = started_pairs(events.drop_last());
        match events.last() {
            CollisionEvent::Started(a, b) => prev.insert(a, b).insert(b, a),
            CollisionEvent::Stopped(_, _) => prev,
        }
    }
}

/// The entities that began touching during a frame, with the partner of each.
pub struct CollisionMap {
    pub colliding_entities: Vec<u64>,
    pub colliding_pairs: HashMap<u64, u64>,
}

impl CollisionMap {
    /// Collects the started contacts of a frame: both entities of each
    /// contact are listed, and each is mapped to the other.
    pub fn new(collision_events: &[CollisionEvent]) -> (m: Self)
        ensures
            m.colliding_entities@ == started_entities(collision_events@),
            m.colliding_pairs@ == started_pairs(collision_events@),
            m.colliding_entities@.len() == 2 * count_started(collision_events@),
            forall|k: int|
                #![trigger collision_events@[k]]
                0 <= k < collision_events@.len() ==> (collision_events@[k] matches CollisionEvent::Started(
                    a,
                    b,
                ) ==> m.colliding_entities@.contains(a) && m.colliding_entities@.contains(b)
                    && m.colliding_pairs@.contains_key(a) && m.colliding_pairs@.contains_key(b)),
    {
        let mut colliding_entities: Vec<u64> = Vec::new();
        let mut colliding_pairs: HashMap<u64, u64> = HashMap::new();
        let n: usize = collision_events.len();
        let mut i: usize = 0;
        while i < n
            invariant
                n == collision_events@.len(),
                i <= n,
                colliding_entities@ == started_entities(collision_events@.take(i as int)),
                colliding_pairs@ == started_pairs(collision_events@.take(i as int)),
            decreases n - i,
        {
            assert(collision_events@.take(i + 1).drop_last() =~= collision_events@.take(i as int));
            match collision_events[i] {
                CollisionEvent::Started(a, b) => {
                    colliding_entities.push(a);
                    colliding_entities.push(b);
                    colliding_pairs.insert(a, b);
                    colliding_pairs.insert(b, a);
                },
                CollisionEvent::Stopped(_, _) => {},
            }
            i = i + 1;
        }
        assert(collision_events@.take(n as int) =~= collision_events@);
        proof {
            let ev = collision_events@;
            lemma_colliding_entities_list_every_started_contact(ev);
            lemma_partner_is_other_end_of_last_contact(ev);
            assert forall|k: int|
                #![trigger ev[k]]
                0 <= k < ev.len() implies (ev[k] matches CollisionEvent::Started(a, b) ==> started_entities(ev).contains(a)
                    && started_entities(ev).contains(b) && started_pairs(ev).contains_key(a)
                    && started_pairs(ev).contains_key(b)) by {
                if let CollisionEvent::Started(a, b) = ev[k] {
                    let c = 2 * count_started(ev.take(k));
                    lemma_count_started_prefix_bound(ev, k);
                    assert(started_entities(ev)[c as int] == a);
                    assert(started_entities(ev)[c + 1int] == b);
                    assert(started_pairs(ev).contains_key(a));
                    assert(started_pairs(ev).contains_key(b));
                }
            }
        }
        CollisionMap { colliding_entities, colliding_pairs }
    }
}

/// Every entity listed as colliding has a partner, and that partner is
/// itself listed as colliding.
pub proof fn lemma_colliding_entities_have_partners(events: Seq<CollisionEvent>)
    ensures
        forall|i: int|
            0 <= i < started_entities(events).len() ==> {
                &&& #[trigger] started_pairs(events).contains_key(started_entities(events)[i])
                &&& started_entities(events).contains(
                    started_pairs(events)[started_entities(events)[i]],
                )
            },
    decreases events.len(),
{
    if events.len() > 0 {
        let prefix = events.drop_last();
        lemma_colliding_entities_have_partners(prefix);
        let ents = started_entities(events);
        let pairs = started_pairs(events);
        let pe = started_entities(prefix);
        let pp = started_pairs(prefix);
        match events.last() {
            CollisionEvent::Started(a, b) => {
                assert forall|i: int| 0 <= i < ents.len() implies {
                    &&& #[trigger] pairs.contains_key(ents[i])
                    &&& ents.contains(pairs[ents[i]])
                } by {
                    let x: u64 = ents[i];
                    assert(ents[pe.len() as int] == a);
                    assert(ents[pe.len() + 1int] == b);
                    if i < pe.len() {
                        assert(x == pe[i]);
                        assert(pp.contains_key(pe[i]));
                        if x != a && x != b {
                            let y: u64 = pp[x];
                            assert(pe.contains(y));
                            let k = choose|k: int| 0 <= k < pe.len() && pe[k] == y;
                            assert(ents[k] == y);
                        }
                    }
                }
            },
            CollisionEvent::Stopped(_, _) => {},
        }
    }
}

/// The number of started contacts among `events`.
pub open spec fn count_started(events: Seq<CollisionEvent>) -> nat
    decreases events.len(),
{
    if events.len() == 0 {
        0
    } else {
        count_started(events.drop_last()) + if events.last() is Started {
            1nat
        } else {
            0nat
        }
    }
}

/// Whether `ev` is a started contact that involves entity `x`.
pub open spec fn mentions(ev: CollisionEvent, x: u64) -> bool {
    match ev {
        CollisionEvent::Started(a, b) => a == x || b == x,
        CollisionEvent::Stopped(_, _) => false,
    }
}

/// The entity that `x` touches in contact `ev`.
pub open spec fn other_end(ev: CollisionEvent, x: u64) -> u64 {
    match ev {
        CollisionEvent::Started(a, b) => if x == b {
            a
        } else {
            b
        },
        CollisionEvent::Stopped(a, _) => a,
    }
}

/// The colliding entities hold exactly two entries per started contact and
/// none for a stopped one: the contact at position `k` that started between
/// `a` and `b` puts `a` and then `b` right after the entities of the started
/// contacts before it.
pub proof fn lemma_colliding_entities_list_every_started_contact(events: Seq<CollisionEvent>)
    ensures
        started_entities(events).len() == 2 * count_started(events),
        forall|k: int|
            #![trigger events[k]]
            0 <= k < events.len() ==> (events[k] matches CollisionEvent::Started(a, b) ==> {
                &&& started_entities(events)[2 * count_started(events.take(k)) as int] == a
                &&& started_entities(events)[2 * count_started(events.take(k)) + 1int] == b
            }),
    decreases events.len(),
{
    if events.len() > 0 {
        let prefix = events.drop_last();
        lemma_colliding_entities_list_every_started_contact(prefix);
        let n = events.len() - 1;
        assert(events.take(n) =~= prefix);
        assert forall|k: int| 0 <= k < n implies #[trigger] events.take(k) == prefix.take(k) by {
            assert(events.take(k) =~= prefix.take(k));
        }
        assert forall|k: int|
            #![trigger events[k]]
            0 <= k < events.len() implies (events[k] matches CollisionEvent::Started(a, b) ==> {
                &&& started_entities(events)[2 * count_started(events.take(k)) as int] == a
                &&& started_entities(events)[2 * count_started(events.take(k)) + 1int] == b
            }) by {
            if k < n {
                assert(events[k] == prefix[k]);
                assert(events.take(k) == prefix.take(k));
                if let CollisionEvent::Started(_, _) = events[k] {
                    lemma_count_started_prefix_bound(prefix, k);
                }
            }
        }
    }
}

/// A prefix ending before a started contact has fewer started contacts than
/// the whole sequence.
proof fn lemma_count_started_prefix_bound(events: Seq<CollisionEvent>, k: int)
    requires
        0 <= k < events.len(),
        events[k] is Started,
    ensures
        count_started(events.take(k)) + 1 <= count_started(events),
    decreases events.len(),
{
    let n = events.len() - 1;
    if k == n {
        assert(events.take(k) =~= events.drop_last());
    } else {
        let prefix = events.drop_last();
        assert(events.take(k) =~= prefix.take(k));
        assert(prefix[k] == events[k]);
        lemma_count_started_prefix_bound(prefix, k);
    }
}

/// Exactly the colliding entities have a partner, and an entity's partner is
/// the other end of the last started contact that involves it.
pub proof fn lemma_partner_is_other_end_of_last_contact(events: Seq<CollisionEvent>)
    ensures
        forall|x: u64|
            #![trigger started_pairs(events).contains_key(x)]
            started_pairs(events).contains_key(x) <==> started_entities(events).contains(x),
        forall|x: u64|
            #![trigger started_pairs(events).contains_key(x)]
            started_pairs(events).contains_key(x) ==> exists|k: int|
                0 <= k < events.len() && #[trigger] mentions(events[k], x) && started_pairs(events)[x]
                    == other_end(events[k], x) && forall|k2: int|
                    k < k2 < events.len() ==> !mentions(#[trigger] events[k2], x),
    decreases events.len(),
{
    if events.len() > 0 {
        let prefix = events.drop_last();
        lemma_partner_is_other_end_of_last_contact(prefix);
        let n = events.len() - 1;
        let pairs = started_pairs(events);
        let pp = started_pairs(prefix);
        let ents = started_entities(events);
        let pe = started_entities(prefix);
        assert forall|k: int| 0 <= k < n implies #[trigger] events[k] == prefix[k] by {}
        match events.last() {
            CollisionEvent::Started(a, b) => {
                assert forall|x: u64| #[trigger] pairs.contains_key(x) <==> ents.contains(x) by {
                    if pe.contains(x) {
                        let j = choose|j: int| 0 <= j < pe.len() && pe[j] == x;
                        assert(ents[j] == x);
                    }
                    if ents.contains(x) && x != a && x != b {
                        let j = choose|j: int| 0 <= j < ents.len() && ents[j] == x;
                        assert(j < pe.len());
                        assert(pe[j] == x);
                    }
                    assert(ents[pe.len() as int] == a);
                    assert(ents[pe.len() + 1int] == b);
                }
                assert forall|x: u64| #[trigger] pairs.contains_key(x) implies exists|k: int|
                    0 <= k < events.len() && #[trigger] mentions(events[k], x) && pairs[x]
                        == other_end(events[k], x) && forall|k2: int|
                        k < k2 < events.len() ==> !mentions(#[trigger] events[k2], x) by {
                    if x == a || x == b {
                        assert(mentions(events[n], x));
                    } else {
                        assert(pp.contains_key(x));
                        let k = choose|k: int|
                            0 <= k < prefix.len() && #[trigger] mentions(prefix[k], x) && pp[x]
                                == other_end(prefix[k], x) && forall|k2: int|
                                k < k2 < prefix.len() ==> !mentions(#[trigger] prefix[k2], x);
                        assert(events[k] == prefix[k]);
                        assert forall|k2: int| k < k2 < events.len() implies !mentions(
                            #[trigger] events[k2],
                            x,
                        ) by {
                            if k2 < n {
                                assert(events[k2] == prefix[k2]);
                            }
                        }
                        assert(mentions(events[k], x));
                    }
                }
            },
            CollisionEvent::Stopped(_, _) => {
                assert forall|x: u64| #[trigger] pairs.contains_key(x) implies exists|k: int|
                    0 <= k < events.len() && #[trigger] mentions(events[k], x) && pairs[x]
                        == other_end(events[k], x) && forall|k2: int|
                        k < k2 < events.len() ==> !mentions(#[trigger] events[k2], x) by {
                    let k = choose|k: int|
                        0 <= k < prefix.len() && #[trigger] mentions(prefix[k], x) && pp[x]
                            == other_end(prefix[k], x) && forall|k2: int|
                            k < k2 < prefix.len() ==> !mentions(#[trigger] prefix[k2], x);
                    assert(events[k] == prefix[k]);
                    assert forall|k2: int| k < k2 < events.len() implies !mentions(
                        #[trigger] events[k2],
                        x,
                    ) by {
                        if k2 < n {
                            assert(events[k2] == prefix[k2]);
                        }
                    }
                    assert(mentions(events[k], x));
                }
            },
        }
    }
}

/// What happens to an ant because of a contact.
#[derive(Clone, Copy, PartialEq, Eq, Structural, Debug)]
pub enum CollisionResponse {
    /// A returning ant reached an ant hill and hands over what it carries.
    Deliver { ant: u64, hill: u64 },
    /// A foraging ant reached food: it eats and loads up, remembers where the
    /// food lies, and turns home.
    Forage { ant: u64, food: u64 },
}

/// The response to entity `e` touching `partner`, and the ant behaviours
/// afterwards.
pub open spec fn respond(
    e: u64,
    partner: u64,
    ants: Map<u64, Behavior>,
    hills: Set<u64>,
    foods: Set<u64>,
) -> (Option<CollisionResponse>, Map<u64, Behavior>) {
    if ants.contains_key(e) && hills.contains(partner) {
        if ants[e] is Return {
            (Some(CollisionResponse::Deliver { ant: e, hill: partner }), ants)
        } else {
            (None, ants)
        }
    } else if ants.contains_key(e) && foods.contains(partner) {
        if ants[e] is Return {
            (None, ants)
        } else {
            (Some(CollisionResponse::Forage { ant: e, food: partner }), ants.insert(e, Behavior::Return))
        }
    } else {
        (None, ants)
    }
}

/// The responses to the colliding entities, taken in order, and the ant
/// behaviours after all of them.
pub open spec fn plan(
    entities: Seq<u64>,
    pairs: Map<u64, u64>,
    ants: Map<u64, Behavior>,
    hills: Set<u64>,
    foods: Set<u64>,
) -> (Seq<CollisionResponse>, Map<u64, Behavior>)
    decreases entities.len(),
{
    if entities.len() == 0 {
        (seq![], ants)
    } else {
        let prev = plan(entities.drop_last(), pairs, ants, hills, foods);
        let e: u64 = entities.last();
        let step = respond(e, pairs[e], prev.1, hills, foods);
        match step.0 {
            Some(r) => (prev.0.push(r), step.1),
            None => (prev.0, step.1),
        }
    }
}

/// The ant a response concerns.
pub open spec fn response_ant(r: CollisionResponse) -> u64 {
    match r {
        CollisionResponse::Deliver { ant, .. } => ant,
        CollisionResponse::Forage { ant, .. } => ant,
    }
}

/// Contacts never create or forget ants, and change an ant's behaviour only
/// by sending it home: a returning ant stays returning.
pub proof fn lemma_plan_only_sends_ants_home(
    entities: Seq<u64>,
    pairs: Map<u64, u64>,
    ants: Map<u64, Behavior>,
    hills: Set<u64>,
    foods: Set<u64>,
)
    ensures
        plan(entities, pairs, ants, hills, foods).1.dom() == ants.dom(),
        forall|e: u64|
            #![trigger plan(entities, pairs, ants, hills, foods).1[e]]
            ants.contains_key(e) ==> {
                ||| plan(entities, pairs, ants, hills, foods).1[e] == ants[e]
                ||| plan(entities, pairs, ants, hills, foods).1[e] is Return
            },
        forall|e: u64|
            #![trigger plan(entities, pairs, ants, hills, foods).1[e]]
            ants.contains_key(e) && ants[e] is Return ==> plan(
                entities,
                pairs,
                ants,
                hills,
                foods,
            ).1[e] is Return,
    decreases entities.len(),
{
    if entities.len() > 0 {
        lemma_plan_only_sends_ants_home(entities.drop_last(), pairs, ants, hills, foods);
        let prev = plan(entities.drop_last(), pairs, ants, hills, foods);
        let next = plan(entities, pairs, ants, hills, foods).1;
        assert(next.dom() =~= ants.dom());
        assert forall|x: u64| ants.contains_key(x) implies {
            ||| #[trigger] next[x] == ants[x]
            ||| next[x] is Return
        } by {
            assert(prev.1.contains_key(x));
            assert(prev.1[x] == ants[x] || prev.1[x] is Return);
        }
        assert forall|x: u64| ants.contains_key(x) && ants[x] is Return implies #[trigger] next[x] is Return by {
            assert(prev.1[x] is Return);
        }
    }
}

/// Within one frame an ant forages at most once, and only an ant that is
/// present forages or delivers: every forage sends its ant home, so a second
/// food contact of the same ant finds it already returning.
pub proof fn lemma_plan_forages_each_ant_at_most_once(
    entities: Seq<u64>,
    pairs: Map<u64, u64>,
    ants: Map<u64, Behavior>,
    hills: Set<u64>,
    foods: Set<u64>,
)
    ensures
        forall|i: int|
            #![trigger plan(entities, pairs, ants, hills, foods).0[i]]
            0 <= i < plan(entities, pairs, ants, hills, foods).0.len() ==> ants.contains_key(
                response_ant(plan(entities, pairs, ants, hills, foods).0[i]),
            ),
        forall|i: int, j: int|
            #![trigger plan(entities, pairs, ants, hills, foods).0[i], plan(entities, pairs, ants, hills, foods).0[j]]
            0 <= i < j < plan(entities, pairs, ants, hills, foods).0.len() && plan(
                entities,
                pairs,
                ants,
                hills,
                foods,
            ).0[i] is Forage && plan(entities, pairs, ants, hills, foods).0[j] is Forage
                ==> response_ant(plan(entities, pairs, ants, hills, foods).0[i]) != response_ant(
                plan(entities, pairs, ants, hills, foods).0[j],
            ),
        forall|i: int|
            #![trigger plan(entities, pairs, ants, hills, foods).0[i]]
            0 <= i < plan(entities, pairs, ants, hills, foods).0.len() && plan(
                entities,
                pairs,
                ants,
                hills,
                foods,
            ).0[i] is Forage ==> plan(entities, pairs, ants, hills, foods).1[response_ant(
                plan(entities, pairs, ants, hills, foods).0[i],
            )] is Return,
    decreases entities.len(),
{
    if entities.len() > 0 {
        let pre = entities.drop_last();
        lemma_plan_forages_each_ant_at_most_once(pre, pairs, ants, hills, foods);
        lemma_plan_only_sends_ants_home(pre, pairs, ants, hills, foods);
        let prev = plan(pre, pairs, ants, hills, foods);
        let cur = plan(entities, pairs, ants, hills, foods);
        assert forall|i: int| 0 <= i < prev.0.len() implies cur.0[i] == #[trigger] prev.0[i] by {}
        assert forall|i: int| 0 <= i < cur.0.len() implies ants.contains_key(
            response_ant(#[trigger] cur.0[i]),
        ) by {
            if i < prev.0.len() {
                assert(cur.0[i] == prev.0[i]);
            }
        }
        assert forall|i: int| 0 <= i < cur.0.len() && #[trigger] cur.0[i] is Forage implies cur.1[response_ant(
            cur.0[i],
        )] is Return by {
            if i < prev.0.len() {
                assert(cur.0[i] == prev.0[i]);
                assert(prev.1[response_ant(prev.0[i])] is Return);
            }
        }
        assert forall|i: int, j: int|
            0 <= i < j < cur.0.len() && #[trigger] cur.0[i] is Forage && #[trigger] cur.0[j] is Forage
                implies response_ant(cur.0[i]) != response_ant(cur.0[j]) by {
            assert(cur.0[i] == prev.0[i]);
            if j < prev.0.len() {
                assert(cur.0[j] == prev.0[j]);
            } else {
                assert(prev.1[response_ant(prev.0[i])] is Return);
            }
        }
    }
}

/// The entity a response pairs the ant with (the hill or the food).
pub open spec fn response_partner(r: CollisionResponse) -> u64 {
    match r {
        CollisionResponse::Deliver { hill, .. } => hill,
        CollisionResponse::Forage { food, .. } => food,
    }
}

/// Whether position `j` of `s` holds the first occurrence of its entity.
pub open spec fn first_occurrence(s: Seq<u64>, j: int) -> bool {
    forall|k: int| 0 <= k < j ==> s[k] != s[j]
}

/// Whether the contact listed at position `j` calls for a response: the
/// entity is an ant whose partner is a hill and which was returning when the
/// frame began, or an ant that was not returning, whose partner is food and
/// not a hill, listed for the first time.
pub open spec fn contact_calls_for_response(
    entities: Seq<u64>,
    pairs: Map<u64, u64>,
    ants: Map<u64, Behavior>,
    hills: Set<u64>,
    foods: Set<u64>,
    j: int,
) -> bool {
    let e = entities[j];
    let p = pairs[e];
    &&& ants.contains_key(e)
    &&& {
        ||| ants[e] is Return && hills.contains(p)
        ||| !(ants[e] is Return) && !hills.contains(p) && foods.contains(p) && first_occurrence(
            entities,
            j,
        )
    }
}

/// After a frame's contacts, an ant is returning exactly when it was
/// returning before, or it was listed as colliding with food that is not a
/// hill; every other ant keeps its behaviour.
pub proof fn lemma_plan_final_behaviors(
    entities: Seq<u64>,
    pairs: Map<u64, u64>,
    ants: Map<u64, Behavior>,
    hills: Set<u64>,
    foods: Set<u64>,
)
    ensures
        plan(entities, pairs, ants, hills, foods).1.dom() == ants.dom(),
        forall|x: u64|
            #![trigger plan(entities, pairs, ants, hills, foods).1[x]]
            ants.contains_key(x) ==> plan(entities, pairs, ants, hills, foods).1[x] == if entities.contains(x)
                && !(ants[x] is Return) && !hills.contains(pairs[x]) && foods.contains(pairs[x]) {
                Behavior::Return
            } else {
                ants[x]
            },
    decreases entities.len(),
{
    lemma_plan_only_sends_ants_home(entities, pairs, ants, hills, foods);
    if entities.len() > 0 {
        let prefix = entities.drop_last();
        lemma_plan_final_behaviors(prefix, pairs, ants, hills, foods);
        let e = entities.last();
        assert(entities =~= prefix.push(e));
        let a = plan(prefix, pairs, ants, hills, foods).1;
        let fin = plan(entities, pairs, ants, hills, foods).1;
        assert forall|x: u64| ants.contains_key(x) implies #[trigger] fin[x] == if entities.contains(x)
            && !(ants[x] is Return) && !hills.contains(pairs[x]) && foods.contains(pairs[x]) {
            Behavior::Return
        } else {
            ants[x]
        } by {
            assert(a.contains_key(x));
            if x != e {
                assert(entities.contains(x) == prefix.contains(x)) by {
                    if entities.contains(x) {
                        let j = choose|j: int| 0 <= j < entities.len() && entities[j] == x;
                        assert(prefix[j] == x);
                    }
                    if prefix.contains(x) {
                        let j = choose|j: int| 0 <= j < prefix.len() && prefix[j] == x;
                        assert(entities[j] == x);
                    }
                }
            } else {
                assert(entities[entities.len() - 1] == x);
                assert(entities.contains(x));
            }
        }
    }
}

/// The responses of a frame are exactly the contacts that call for one, in
/// the order the contacts are listed: a hill visit by an ant that was
/// returning when the frame began gives `Deliver`, a first food visit by an
/// ant that was not returning gives `Forage`, and nothing else gives a
/// response. The returned positions locate each response's contact.
pub proof fn lemma_plan_answers_exactly_the_qualifying_contacts(
    entities: Seq<u64>,
    pairs: Map<u64, u64>,
    ants: Map<u64, Behavior>,
    hills: Set<u64>,
    foods: Set<u64>,
) -> (idx: Seq<int>)
    ensures
        idx.len() == plan(entities, pairs, ants, hills, foods).0.len(),
        forall|i: int| #![trigger idx[i]] 0 <= i < idx.len() ==> 0 <= idx[i] < entities.len(),
        forall|i: int, j: int| #![trigger idx[i], idx[j]] 0 <= i < j < idx.len() ==> idx[i] < idx[j],
        forall|i: int|
            #![trigger idx[i]]
            0 <= i < idx.len() ==> {
                let r = plan(entities, pairs, ants, hills, foods).0[i];
                let e = entities[idx[i]];
                &&& response_ant(r) == e
                &&& response_partner(r) == pairs[e]
                &&& contact_calls_for_response(entities, pairs, ants, hills, foods, idx[i])
                &&& (r is Deliver) == hills.contains(pairs[e])
            },
        forall|j: int|
            0 <= j < entities.len() && #[trigger] contact_calls_for_response(
                entities,
                pairs,
                ants,
                hills,
                foods,
                j,
            ) ==> idx.contains(j),
    decreases entities.len(),
{
    if entities.len() == 0 {
        seq![]
    } else {
        let n = entities.len() - 1;
        let prefix = entities.drop_last();
        let idx0 = lemma_plan_answers_exactly_the_qualifying_contacts(prefix, pairs, ants, hills, foods);
        lemma_plan_final_behaviors(prefix, pairs, ants, hills, foods);
        let e = entities.last();
        let p = pairs[e];
        let prev = plan(prefix, pairs, ants, hills, foods);
        let step = respond(e, p, prev.1, hills, foods);
        let rs = plan(entities, pairs, ants, hills, foods).0;
        assert forall|k: int| 0 <= k < n implies #[trigger] entities[k] == prefix[k] by {}
        assert forall|j: int| 0 <= j < n implies #[trigger] first_occurrence(entities, j)
            == first_occurrence(prefix, j) by {
            assert forall|k: int| 0 <= k < j implies entities[k] == #[trigger] prefix[k] by {}
        }
        assert forall|j: int| 0 <= j < n implies #[trigger] contact_calls_for_response(
            entities,
            pairs,
            ants,
            hills,
            foods,
            j,
        ) == contact_calls_for_response(prefix, pairs, ants, hills, foods, j) by {
            assert(first_occurrence(entities, j) == first_occurrence(prefix, j));
        }
        // the last contact calls for a response exactly when the plan gives one
        assert(first_occurrence(entities, n) == !prefix.contains(e)) by {
            if prefix.contains(e) {
                let k = choose|k: int| 0 <= k < prefix.len() && prefix[k] == e;
                assert(entities[k] == prefix[k]);
            }
            if !first_occurrence(entities, n) {
                let k = choose|k: int| 0 <= k < n && entities[k] == entities[n];
                assert(prefix[k] == e);
            }
        }
        if ants.contains_key(e) {
            assert(prev.1.contains_key(e));
            assert(prev.1[e] == if prefix.contains(e) && !(ants[e] is Return) && !hills.contains(p)
                && foods.contains(p) {
                Behavior::Return
            } else {
                ants[e]
            });
        }
        assert(step.0 is Some == contact_calls_for_response(entities, pairs, ants, hills, foods, n));
        let idx = if step.0 is Some {
            idx0.push(n)
        } else {
            idx0
        };
        assert forall|i: int| 0 <= i < idx0.len() implies rs[i] == #[trigger] prev.0[i] by {}
        assert forall|i: int| #![trigger idx[i]] 0 <= i < idx.len() implies {
            let r = rs[i];
            let x = entities[idx[i]];
            &&& response_ant(r) == x
            &&& response_partner(r) == pairs[x]
            &&& contact_calls_for_response(entities, pairs, ants, hills, foods, idx[i])
            &&& (r is Deliver) == hills.contains(pairs[x])
        } by {
            if i < idx0.len() {
                assert(idx[i] == idx0[i]);
                assert(rs[i] == prev.0[i]);
                assert(entities[idx0[i]] == prefix[idx0[i]]);
            } else {
                assert(idx[i] == n);
                assert(entities[n] == e);
            }
        }
        assert forall|j: int|
            0 <= j < entities.len() && #[trigger] contact_calls_for_response(
                entities,
                pairs,
                ants,
                hills,
                foods,
                j,
            ) implies idx.contains(j) by {
            if j < n {
                assert(contact_calls_for_response(prefix, pairs, ants, hills, foods, j));
                assert(idx0.contains(j));
                let i = choose|i: int| 0 <= i < idx0.len() && idx0[i] == j;
                assert(idx[i] == j);
            } else {
                assert(idx[idx.len() - 1] == n);
            }
        }
        assert forall|i: int, j: int| #![trigger idx[i], idx[j]] 0 <= i < j < idx.len() implies idx[i]
            < idx[j] by {
            if j < idx0.len() {
                assert(idx[i] == idx0[i] && idx[j] == idx0[j]);
            } else {
                assert(idx[i] == idx0[i]);
                assert(0 <= idx0[i] < prefix.len());
            }
        }
        idx
    }
}

/// Only ants get responses, and the kind of a response is fixed by the ant's
/// behaviour when the frame began: an ant that was returning can only
/// deliver, an ant that was searching or following can only forage.
pub proof fn lemma_response_kind_follows_starting_behavior(
    entities: Seq<u64>,
    pairs: Map<u64, u64>,
    ants: Map<u64, Behavior>,
    hills: Set<u64>,
    foods: Set<u64>,
)
    ensures
        forall|i: int|
            #![trigger plan(entities, pairs, ants, hills, foods).0[i]]
            0 <= i < plan(entities, pairs, ants, hills, foods).0.len() ==> ants.contains_key(
                response_ant(plan(entities, pairs, ants, hills, foods).0[i]),
            ) && (plan(entities, pairs, ants, hills, foods).0[i] is Deliver <==> ants[response_ant(
                plan(entities, pairs, ants, hills, foods).0[i],
            )] is Return),
{
    let idx = lemma_plan_answers_exactly_the_qualifying_contacts(entities, pairs, ants, hills, foods);
    let rs = plan(entities, pairs, ants, hills, foods).0;
    assert forall|i: int| #![trigger rs[i]] 0 <= i < rs.len() implies ants.contains_key(
        response_ant(rs[i]),
    ) && (rs[i] is Deliver <==> ants[response_ant(rs[i])] is Return) by {
        assert(0 <= idx[i] < entities.len());
        assert(contact_calls_for_response(entities, pairs, ants, hills, foods, idx[i]));
    }
}

/// Decides, for each colliding entity in order, what its contact means:
/// an ant touching an ant hill delivers if it is returning; an ant touching
/// food that is not returning forages and turns home. `ants` holds the
/// behaviour of every ant and is updated; `anthills` and `foods` hold the
/// ant hills and food items.
pub fn plan_collisions(
    map: &CollisionMap,
    ants: &mut HashMap<u64, Behavior>,
    anthills: &HashSet<u64>,
    foods: &HashSet<u64>,
) -> (responses: Vec<CollisionResponse>)
    requires
        forall|i: int|
            0 <= i < map.colliding_entities@.len() ==> #[trigger] map.colliding_pairs@.contains_key(
                map.colliding_entities@[i],
            ),
    ensures
        responses@ == plan(
            map.colliding_entities@,
            map.colliding_pairs@,
            old(ants)@,
            anthills@,
            foods@,
        ).0,
        final(ants)@ == plan(
            map.colliding_entities@,
            map.colliding_pairs@,
            old(ants)@,
            anthills@,
            foods@,
        ).1,
        forall|i: int|
            #![trigger responses@[i]]
            0 <= i < responses@.len() ==> old(ants)@.contains_key(response_ant(responses@[i])) && (
            responses@[i] is Deliver <==> old(ants)@[response_ant(responses@[i])] is Return),
{
    let ghost ants0 = ants@;
    let ghost ents = map.colliding_entities@;
    let mut responses: Vec<CollisionResponse> = Vec::new();
    let n: usize = map.colliding_entities.len();
    let mut i: usize = 0;
    while i < n
        invariant
            n == ents.len(),
            ents == map.colliding_entities@,
            i <= n,
            forall|j: int|
                0 <= j < ents.len() ==> #[trigger] map.colliding_pairs@.contains_key(ents[j]),
            responses@ == plan(ents.take(i as int), map.colliding_pairs@, ants0, anthills@, foods@).0,
            ants@ == plan(ents.take(i as int), map.colliding_pairs@, ants0, anthills@, foods@).1,
        decreases n - i,
    {
        assert(ents.take(i + 1).drop_last() =~= ents.take(i as int));
        assert(ents.take(i + 1).last() == ents[i as int]);
        let e: u64 = map.colliding_entities[i];
        assert(map.colliding_pairs@.contains_key(ents[i as int]));
        if let Some(p) = map.colliding_pairs.get(&e) {
            let partner: u64 = *p;
            let ant = match ants.get(&e) {
                Some(b) => Some(*b),
                None => None,
            };
            match ant {
                Some(b) => {
                    if anthills.contains(&partner) {
                        if b.is_returning() {
                            responses.push(CollisionResponse::Deliver { ant: e, hill: partner });
                        }
                    } else if foods.contains(&partner) {
                        if !b.is_returning() {
                            responses.push(CollisionResponse::Forage { ant: e, food: partner });
                            ants.insert(e, Behavior::Return);
                        }
                    }
                },
                None => {},
            }
        }
        i = i + 1;
    }
    assert(ents.take(n as int) =~= ents);
    proof {
        lemma_response_kind_follows_starting_behavior(ents, map.colliding_pairs@, ants0, anthills@, foods@);
    }
    responses
}

/// Handles a frame's contact events: collects the started contacts, then
/// decides each colliding entity's response in order (see
/// [`plan_collisions`]).
pub fn detect_collisions(
    collision_events: &[CollisionEvent],
    ants: &mut HashMap<u64, Behavior>,
    anthills: &HashSet<u64>,
    foods: &HashSet<u64>,
) -> (responses: Vec<CollisionResponse>)
    ensures
        responses@ == plan(
            started_entities(collision_events@),
            started_pairs(collision_events@),
            old(ants)@,
            anthills@,
            foods@,
        ).0,
        final(ants)@ == plan(
            started_entities(collision_events@),
            started_pairs(collision_events@),
            old(ants)@,
            anthills@,
            foods@,
        ).1,
        forall|i: int|
            #![trigger responses@[i]]
            0 <= i < responses@.len() ==> old(ants)@.contains_key(response_ant(responses@[i])) && (
            responses@[i] is Deliver <==> old(ants)@[response_ant(responses@[i])] is Return),
{
    let map = CollisionMap::new(collision_events);
    proof {
        lemma_colliding_entities_have_partners(collision_events@);
    }
    plan_collisions(&map, ants, anthills, foods)
}

} // verus!
