//! Habits, their catalog, and the lookups that entries make in it.

use crate::text::{is_blank, lemma_blank_trims_to_empty, trim, trimmed};
use vstd::prelude::*;
use vstd::seq_lib::seq_to_set_is_finite;
use vstd::set_lib::{lemma_int_range, lemma_len_subset, set_int_range};

verus! {

/// How often a habit is meant to be done.
#[derive(Clone, Copy, Debug, PartialEq, Eq, Structural, Hash)]
pub enum HabitType {
    JustTrack,
    Daily,
    Weekly,
}

/// The cadence that a legacy cadence digit stands for.
pub open spec fn habit_type_code(c: char) -> Option<HabitType> {
    if c == '0' {
        Some(HabitType::JustTrack)
    } else if c == '1' {
        Some(HabitType::Daily)
    } else if c == '7' {
        Some(HabitType::Weekly)
    } else {
        None
    }
}

impl HabitType {
    /// Reads a legacy cadence digit: `'0'`, `'1'` and `'7'` give
    /// `JustTrack`, `Daily` and `Weekly`; any other character gives nothing.
    pub fn from_habitctl_char(c: char) -> (r: Option<HabitType>)
        ensures
            r == habit_type_code(c),
            c == '0' ==> r == Some(HabitType::JustTrack),
            c == '1' ==> r == Some(HabitType::Daily),
            c == '7' ==> r == Some(HabitType::Weekly),
            c != '0' && c != '1' && c != '7' ==> r is None,
    {
        match c {
            '0' => Some(HabitType::JustTrack),
            '1' => Some(HabitType::Daily),
            '7' => Some(HabitType::Weekly),
            _ => None,
        }
    }
}

/// A habit of the catalog. Its `uuid` is the 128-bit value of a random
/// UUID, given once when the habit is made.
#[derive(Clone, Debug, PartialEq, Eq)]
pub struct Habit {
    pub uuid: u128,
    pub habit_type: HabitType,
    pub description: String,
}

/// What a habit holds but its identifier.
pub open spec fn habit_fields(h: Habit) -> (HabitType, Seq<char>) {
    (h.habit_type, h.description@)
}

/// The cadence and description that a legacy catalog line gives, if any:
/// the line is trimmed, its first character is the cadence digit and the
/// rest, trimmed, is the description.
pub open spec fn habit_line_fields(line: Seq<char>) -> Option<(HabitType, Seq<char>)> {
    let t = trimmed(line);
    if t.len() == 0 {
        None
    } else {
        match habit_type_code(t[0]) {
            Some(ty) => Some((ty, trimmed(t.drop_first()))),
            None => None,
        }
    }
}

/// The habits that the lines of a legacy catalog give, in line order.
pub open spec fn catalog_fields(lines: Seq<String>) -> Seq<(HabitType, Seq<char>)>
    decreases lines.len(),
{
    if lines.len() == 0 {
        Seq::empty()
    } else {
        let before = catalog_fields(lines.drop_last());
        match habit_line_fields(lines.last()@) {
            Some(f) => before.push(f),
            None => before,
        }
    }
}

/// `habits` is a catalog built from the legacy catalog `lines`: it holds
/// the habits that the lines give, in line order.
pub open spec fn catalog_of(habits: Seq<Habit>, lines: Seq<String>) -> bool {
    &&& habits.len() == catalog_fields(lines).len()
    &&& forall|k: int|
        0 <= k < habits.len() ==> habit_fields(#[trigger] habits[k]) == catalog_fields(lines)[k]
}

/// The catalog of two runs of lines is the catalogs of each, one after the
/// other.
proof fn lemma_catalog_fields_append(a: Seq<String>, b: Seq<String>)
    ensures
        catalog_fields(a + b) == catalog_fields(a) + catalog_fields(b),
    decreases b.len(),
{
    if b.len() == 0 {
        assert(a + b =~= a);
        assert(catalog_fields(a) + catalog_fields(b) =~= catalog_fields(a));
    } else {
        assert((a + b).drop_last() =~= a + b.drop_last());
        assert((a + b).last() == b.last());
        lemma_catalog_fields_append(a, b.drop_last());
        let fa = catalog_fields(a);
        let fb = catalog_fields(b.drop_last());
        match habit_line_fields(b.last()@) {
            Some(f) => {
                assert(fa + fb.push(f) =~= (fa + fb).push(f));
            },
            None => {},
        }
    }
}

/// A blank line of a legacy catalog reads as no habit, and wherever it
/// stands among the lines, the catalog is that of the other lines.
pub proof fn lemma_blank_catalog_line(before: Seq<String>, blank: String, after: Seq<String>)
    requires
        is_blank(blank@),
    ensures
        habit_line_fields(blank@) is None,
        catalog_fields(before.push(blank) + after) == catalog_fields(before + after),
{
    lemma_blank_trims_to_empty(blank@);
    lemma_catalog_fields_append(before.push(blank), after);
    lemma_catalog_fields_append(before, after);
    assert(before.push(blank).drop_last() =~= before);
}

/// The index of the first habit of `habits` that meets `p`, if any.
pub open spec fn first_match(habits: Seq<Habit>, p: spec_fn(Habit) -> bool) -> Option<int>
    decreases habits.len(),
{
    if habits.len() == 0 {
        None
    } else {
        match first_match(habits.drop_last(), p) {
            Some(i) => Some(i),
            None => if p(habits.last()) {
                Some(habits.len() - 1)
            } else {
                None
            },
        }
    }
}

/// Whether a habit has the identifier `uuid`.
pub open spec fn has_uuid(uuid: u128) -> spec_fn(Habit) -> bool {
    |h: Habit| h.uuid == uuid
}

/// Whether a habit has the description `d`.
pub open spec fn has_description(d: Seq<char>) -> spec_fn(Habit) -> bool {
    |h: Habit| h.description@ == d
}

/// The index of the first habit with the identifier `uuid`.
pub open spec fn position_of_uuid(habits: Seq<Habit>, uuid: u128) -> Option<int> {
    first_match(habits, has_uuid(uuid))
}

/// The index of the first habit with the description `d`.
pub open spec fn position_of_description(habits: Seq<Habit>, d: Seq<char>) -> Option<int> {
    first_match(habits, has_description(d))
}

/// `first_match` finds the first habit that meets `p`, and nothing where
/// none does.
pub proof fn lemma_first_match_is_first(habits: Seq<Habit>, p: spec_fn(Habit) -> bool)
    ensures
        first_match(habits, p) matches Some(i) ==> 0 <= i < habits.len() && p(habits[i])
            && forall|j: int| 0 <= j < i ==> !p(#[trigger] habits[j]),
        first_match(habits, p) is None ==> forall|j: int|
            0 <= j < habits.len() ==> !p(#[trigger] habits[j]),
    decreases habits.len(),
{
    if habits.len() > 0 {
        let before = habits.drop_last();
        lemma_first_match_is_first(before, p);
        assert forall|j: int| 0 <= j < before.len() implies before[j] == habits[j] by {}
    }
}

/// The description lookup finds the earliest habit with that description.
pub proof fn lemma_position_of_description(habits: Seq<Habit>, d: Seq<char>)
    ensures
        position_of_description(habits, d) matches Some(i) ==> 0 <= i < habits.len()
            && habits[i].description@ == d && forall|j: int|
            0 <= j < i ==> (#[trigger] habits[j]).description@ != d,
        position_of_description(habits, d) is None ==> forall|j: int|
            0 <= j < habits.len() ==> (#[trigger] habits[j]).description@ != d,
{
    lemma_first_match_is_first(habits, has_description(d));
}

/// The identifier of a habit of the catalog is found in it.
pub proof fn lemma_uuid_resolves(habits: Seq<Habit>, i: int)
    requires
        0 <= i < habits.len(),
    ensures
        position_of_uuid(habits, habits[i].uuid) is Some,
{
    lemma_first_match_is_first(habits, has_uuid(habits[i].uuid));
}

/// A match in the first `k` habits is the match in all of them.
proof fn lemma_first_match_prefix(habits: Seq<Habit>, p: spec_fn(Habit) -> bool, k: int)
    requires
        0 <= k <= habits.len(),
        first_match(habits.subrange(0, k), p) is Some,
    ensures
        first_match(habits, p) == first_match(habits.subrange(0, k), p),
    decreases habits.len() - k,
{
    if k < habits.len() {
        assert(habits.subrange(0, k + 1).drop_last() =~= habits.subrange(0, k));
        lemma_first_match_prefix(habits, p, k + 1);
    } else {
        assert(habits.subrange(0, k) =~= habits);
    }
}

/// The 128-bit value of the version 4 UUID made of the random value
/// `random`: its version nibble set to 4 and its variant bits to `10`.
pub open spec fn v4_uuid(random: u128) -> u128 {
    (random & 0xffff_ffff_ffff_0fff_3fff_ffff_ffff_ffffu128)
        | 0x0000_0000_0000_4000_8000_0000_0000_0000u128
}

/// Relies on uuid's `Builder::from_random_bytes`, `Builder::into_uuid` and
/// `Uuid::as_u128`: the bytes, taken big-endian, keep all their bits but the
/// version nibble, set to 4, and the two variant bits, set to `10`.
#[verifier::external_body]
fn uuid_from_random(random: u128) -> (r: u128)
    ensures
        r == v4_uuid(random),
{
    uuid::Builder::from_random_bytes(random.to_be_bytes()).into_uuid().as_u128()
}

impl Habit {
    /// A habit whose identifier is the version 4 UUID made of the random
    /// value `random`.
    pub fn new(habit_type: HabitType, description: String, random: u128) -> (r: Habit)
        ensures
            r.habit_type == habit_type,
            r.description == description,
            r.uuid == v4_uuid(random),
            (r.uuid >> 76u128) & 0xfu128 == 4,
            (r.uuid >> 62u128) & 0x3u128 == 2,
    {
        let uuid = uuid_from_random(random);
        assert((((random & 0xffff_ffff_ffff_0fff_3fff_ffff_ffff_ffffu128)
            | 0x0000_0000_0000_4000_8000_0000_0000_0000u128) >> 76u128) & 0xfu128 == 4
            && (((random & 0xffff_ffff_ffff_0fff_3fff_ffff_ffff_ffffu128)
            | 0x0000_0000_0000_4000_8000_0000_0000_0000u128) >> 62u128) & 0x3u128 == 2)
            by (bit_vector);
        Habit { uuid, habit_type, description }
    }

    /// Reads one line of a legacy catalog; a blank line, or one whose first
    /// character is no cadence digit, gives no habit. The habit's identifier
    /// is made of the random value `random`.
    pub fn from_habitctl_line(line: &str, random: u128) -> (r: Option<Habit>)
        ensures
            match habit_line_fields(line@) {
                Some(f) => r matches Some(h) && habit_fields(h) == f && h.uuid == v4_uuid(random),
                None => r is None,
            },
    {
        let t = trim(line);
        let n = t.unicode_len();
        if n == 0 {
            return None;
        }
        match HabitType::from_habitctl_char(t.get_char(0)) {
            Some(habit_type) => {
                let description = trim(t.substring_char(1, n));
                assert(t@.subrange(1, n as int) =~= t@.drop_first());
                Some(Habit::new(habit_type, String::from_str(description), random))
            },
            None => None,
        }
    }

    /// The first habit of `habits` with the identifier `uuid`, if any.
    pub fn from_uuid(habits: &[Habit], uuid: u128) -> (r: Option<&Habit>)
        ensures
            r is Some <==> position_of_uuid(habits@, uuid) is Some,
            r matches Some(h) ==> *h == habits@[position_of_uuid(habits@, uuid)->0],
    {
        let ghost p = has_uuid(uuid);
        let mut i: usize = 0;
        while i < habits.len()
            invariant
                i <= habits@.len(),
                p == has_uuid(uuid),
                first_match(habits@.subrange(0, i as int), p) is None,
            decreases habits.len() - i,
        {
            assert(habits@.subrange(0, i + 1).drop_last() =~= habits@.subrange(0, i as int));
            if habits[i].uuid == uuid {
                proof {
                    lemma_first_match_prefix(habits@, p, i + 1);
                }
                return Some(&habits[i]);
            }
            i += 1;
        }
        assert(habits@.subrange(0, i as int) =~= habits@);
        None
    }

    /// The first habit of `habits` whose description is `description`, if
    /// any: where descriptions repeat, the earliest habit wins.
    pub fn from_description<'a>(habits: &'a [Habit], description: &String) -> (r: Option<&'a Habit>)
        ensures
            r is Some <==> position_of_description(habits@, description@) is Some,
            r matches Some(h) ==> *h == habits@[position_of_description(
                habits@,
                description@,
            )->0],
    {
        let ghost p = has_description(description@);
        let mut i: usize = 0;
        while i < habits.len()
            invariant
                i <= habits@.len(),
                p == has_description(description@),
                first_match(habits@.subrange(0, i as int), p) is None,
            decreases habits.len() - i,
        {
            assert(habits@.subrange(0, i + 1).drop_last() =~= habits@.subrange(0, i as int));
            if habits[i].description == *description {
                proof {
                    lemma_first_match_prefix(habits@, p, i + 1);
                }
                return Some(&habits[i]);
            }
            i += 1;
        }
        assert(habits@.subrange(0, i as int) =~= habits@);
        None
    }
}

/// Whether some habit of `habits` has the identifier `uuid`.
pub open spec fn uuid_taken(habits: Seq<Habit>, uuid: u128) -> bool {
    exists|k: int| 0 <= k < habits.len() && (#[trigger] habits[k]).uuid == uuid
}

/// No two habits of `habits` share an identifier.
pub open spec fn distinct_uuids(habits: Seq<Habit>) -> bool {
    forall|i: int, j: int|
        0 <= i < habits.len() && 0 <= j < habits.len() && i != j ==> (#[trigger] habits[i]).uuid
            != (#[trigger] habits[j]).uuid
}

/// Whether some habit of `habits` has the identifier `uuid`.
fn uuid_in(habits: &Vec<Habit>, uuid: u128) -> (r: bool)
    ensures
        r == uuid_taken(habits@, uuid),
{
    let mut i: usize = 0;
    while i < habits.len()
        invariant
            i <= habits@.len(),
            forall|k: int| 0 <= k < i ==> (#[trigger] habits@[k]).uuid != uuid,
        decreases habits.len() - i,
    {
        if habits[i].uuid == uuid {
            return true;
        }
        i += 1;
    }
    false
}

/// `n` habits cannot take all of the `n + 1` identifiers from 0 to `n`.
proof fn lemma_free_identifier_up_to_len(habits: Seq<Habit>)
    requires
        habits.len() < u128::MAX,
    ensures
        exists|d: u128| d as int <= habits.len() && !#[trigger] uuid_taken(habits, d),
{
    if forall|d: u128| d as int <= habits.len() ==> #[trigger] uuid_taken(habits, d) {
        lemma_every_identifier_taken_is_impossible(habits);
    }
}

proof fn lemma_every_identifier_taken_is_impossible(habits: Seq<Habit>)
    requires
        habits.len() < u128::MAX,
        forall|d: u128| d as int <= habits.len() ==> #[trigger] uuid_taken(habits, d),
    ensures
        habits.len() + 1 <= habits.len(),
{
    let n = habits.len() as int;
    let ids = habits.map_values(|h: Habit| h.uuid as int);
    seq_to_set_is_finite(ids);
    ids.lemma_cardinality_of_set();
    lemma_int_range(0, n + 1);
    assert forall|x: int| set_int_range(0, n + 1).contains(x) implies ids.to_set().contains(x) by {
        assert(uuid_taken(habits, x as u128));
        let k = choose|k: int| 0 <= k < habits.len() && (#[trigger] habits[k]).uuid == x as u128;
        assert(ids[k] == x);
    }
    lemma_len_subset(set_int_range(0, n + 1), ids.to_set());
}

/// The smallest identifier that no habit of `habits` has; it is at most
/// the number of habits.
fn smallest_free_uuid(habits: &Vec<Habit>) -> (r: u128)
    ensures
        !uuid_taken(habits@, r),
        forall|d: u128| d < r ==> uuid_taken(habits@, d),
{
    let n = habits.len() as u128;
    let mut c: u128 = 0;
    loop
        invariant
            n == habits@.len(),
            n <= usize::MAX,
            c <= n,
            forall|d: u128| d < c ==> uuid_taken(habits@, d),
        decreases n - c,
    {
        if !uuid_in(habits, c) {
            return c;
        }
        if c == n {
            proof {
                lemma_free_identifier_up_to_len(habits@);
                let d = choose|d: u128|
                    d as int <= habits@.len() && !#[trigger] uuid_taken(habits@, d);
                assert(d < c || d == c);
            }
        }
        c += 1;
    }
}

/// The identifier `uuid` is the one that the catalog builder gives to the
/// habit that follows the habits `before`, with the random values `random`:
/// the UUID made of the next random value where there is one and no habit
/// of `before` has that UUID, else the smallest identifier that no habit of
/// `before` has.
pub open spec fn assigned_uuid(before: Seq<Habit>, random: Seq<u128>, uuid: u128) -> bool {
    let k = before.len() as int;
    if k < random.len() && !uuid_taken(before, v4_uuid(random[k])) {
        uuid == v4_uuid(random[k])
    } else {
        !uuid_taken(before, uuid) && forall|d: u128| d < uuid ==> uuid_taken(before, d)
    }
}

/// Each habit of `habits` has the identifier that the catalog builder gives
/// it after the habits before it.
pub open spec fn uuids_assigned(habits: Seq<Habit>, random: Seq<u128>) -> bool {
    forall|k: int|
        0 <= k < habits.len() ==> assigned_uuid(
            habits.subrange(0, k),
            random,
            #[trigger] habits[k].uuid,
        )
}

/// Builds the catalog from the lines of a legacy catalog: one habit for
/// each line that reads as a habit, in line order. The `k`-th habit gets the
/// UUID made of `random[k]`, unless there is no such value or an earlier
/// habit has that UUID: then it gets the smallest identifier that no earlier
/// habit has. No two habits share an identifier.
pub fn parse_habitctl_habits(lines: &[String], random: &[u128]) -> (r: Vec<Habit>)
    ensures
        catalog_of(r@, lines@),
        uuids_assigned(r@, random@),
        distinct_uuids(r@),
{
    let mut habits: Vec<Habit> = Vec::new();
    let mut i: usize = 0;
    while i < lines.len()
        invariant
            i <= lines@.len(),
            habits@.len() == catalog_fields(lines@.subrange(0, i as int)).len(),
            forall|k: int|
                0 <= k < habits@.len() ==> habit_fields(#[trigger] habits@[k]) == catalog_fields(
                    lines@.subrange(0, i as int),
                )[k],
            uuids_assigned(habits@, random@),
            distinct_uuids(habits@),
        decreases lines.len() - i,
    {
        assert(lines@.subrange(0, i + 1).drop_last() =~= lines@.subrange(0, i as int));
        let k = habits.len();
        let value: u128 = if k < random.len() {
            random[k]
        } else {
            0
        };
        match Habit::from_habitctl_line(lines[i].as_str(), value) {
            Some(habit) => {
                let mut habit = habit;
                if k >= random.len() || uuid_in(&habits, habit.uuid) {
                    habit.uuid = smallest_free_uuid(&habits);
                }
                let ghost before = habits@;
                proof {
                    assert(before.subrange(0, k as int) =~= before);
                    assert(assigned_uuid(before, random@, habit.uuid));
                    assert forall|m: int| 0 <= m < before.len() implies (
                    #[trigger] before[m]).uuid != habit.uuid by {}
                }
                habits.push(habit);
                proof {
                    assert forall|m: int| 0 <= m < habits@.len() implies assigned_uuid(
                        habits@.subrange(0, m),
                        random@,
                        #[trigger] habits@[m].uuid,
                    ) by {
                        assert(habits@.subrange(0, m) =~= before.subrange(0, m));
                    }
                }
            },
            None => {},
        }
        i += 1;
    }
    assert(lines@.subrange(0, i as int) =~= lines@);
    habits
}

} // verus!
