//! Laws of the entity model, stated and proved over the spec-level
//! transitions that the executable operations are verified against.

use vstd::prelude::*;

use crate::codec::spec_status;
use crate::protocol::{spec_post, spec_response};
use crate::tamo::{
    satu32, spec_can_drink, spec_can_eat, spec_drink, spec_eat, spec_feed, spec_is_dead,
    spec_time_pass, Tamo, CENTI, REFUSAL_THRESHOLD,
};

verus! {

/// Every response payload is the status of the state the command cycle just
/// produced — the same state the caller then persists — and a line that
/// yields no payload leaves the creature exactly as it was.
pub proof fn lemma_response_matches_state(t: Tamo, line: Seq<u8>)
    ensures
        match spec_response(t, line) {
            Option::Some(s) => s == spec_status(spec_post(t, line)),
            Option::None => spec_post(t, line) == t,
        },
{
}

/// Feeding below the refusal threshold restocks exactly ten food and leaves
/// hunger untouched; feeding at or above it lowers hunger by exactly one
/// point, never below the threshold's boundary, and leaves the room alone.
pub proof fn lemma_feed_conserves(t: Tamo)
    ensures
        t.hunger < REFUSAL_THRESHOLD ==> spec_feed(t).hunger == t.hunger && spec_feed(t).room.food
            == satu32(t.room.food, 10) && spec_feed(t).room.water == t.room.water,
        t.hunger >= REFUSAL_THRESHOLD ==> spec_feed(t).hunger == t.hunger - CENTI && spec_feed(
            t,
        ).hunger >= REFUSAL_THRESHOLD - CENTI && spec_feed(t).room == t.room,
{
}

/// `eat` is a no-op whenever any one of its three preconditions fails, and
/// the state read back afterwards is identical in every field.
pub proof fn lemma_eat_noop(t: Tamo)
    requires
        !spec_can_eat(t),
    ensures
        spec_eat(t) == t,
{
}

/// `drink` is a no-op whenever any one of its three preconditions fails, and
/// the state read back afterwards is identical in every field.
pub proof fn lemma_drink_noop(t: Tamo)
    requires
        !spec_can_drink(t),
    ensures
        spec_drink(t) == t,
{
}

/// `n` feedings in sequence.
pub open spec fn spec_feed_n(t: Tamo, n: nat) -> Tamo
    decreases n,
{
    if n == 0 {
        t
    } else {
        spec_feed(spec_feed_n(t, (n - 1) as nat))
    }
}

/// Serialized feedings lose no update: as long as hunger stays at or above
/// the refusal threshold, `n` feedings lower hunger by exactly `n` points
/// and touch nothing else.
pub proof fn lemma_feed_n_exact(t: Tamo, n: nat)
    requires
        t.hunger >= REFUSAL_THRESHOLD + (n - 1) * CENTI,
        n >= 1,
    ensures
        spec_feed_n(t, n).hunger == t.hunger - n * CENTI,
        spec_feed_n(t, n).room == t.room,
        spec_feed_n(t, n).energy == t.energy,
        spec_feed_n(t, n).thirst == t.thirst,
        spec_feed_n(t, n).happiness == t.happiness,
        spec_feed_n(t, n).age == t.age,
        spec_feed_n(t, n).name == t.name,
    decreases n,
{
    if n == 1 {
        assert(spec_feed_n(t, 1) == spec_feed(spec_feed_n(t, 0)));
    } else {
        lemma_feed_n_exact(t, (n - 1) as nat);
        assert(spec_feed_n(t, (n - 1) as nat).hunger == t.hunger - (n - 1) * CENTI);
        assert(t.hunger - (n - 1) * CENTI >= REFUSAL_THRESHOLD);
    }
}

/// Death is reached and is idempotent: from any energy below `1.05`, one
/// tick kills the creature and pins its age at the terminal sentinel, and a
/// further tick leaves the sentinel unchanged.
pub proof fn lemma_death_idempotent(t: Tamo)
    requires
        t.energy < 105,
    ensures
        spec_is_dead(spec_time_pass(t)),
        spec_time_pass(t).age == i64::MAX,
        spec_time_pass(spec_time_pass(t)).age == i64::MAX,
        spec_is_dead(spec_time_pass(spec_time_pass(t))),
{
}

} // verus!
