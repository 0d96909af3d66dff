//! The calls that this library makes into other crates, and into parts of
//! std for which the verifier has no specification. The contract of each
//! function here is taken on trust; everything else in the library is proved
//! from them.

use rand::seq::SliceRandom;
use slice_group_by::GroupBy;
use vstd::prelude::*;

use crate::model::Chunk;

verus! {

/// The digit for a value below sixteen: `0` to `9`, then `a` to `f`.
pub open spec fn digit(nibble: int) -> char {
    seq!['0', '1', '2', '3', '4', '5', '6', '7', '8', '9', 'a', 'b', 'c', 'd', 'e', 'f'][nibble]
}

/// The 32 hexadecimal digits of a 128-bit identifier, most significant first.
pub open spec fn hex_digits(id: u128) -> Seq<char> {
    Seq::new(32, |i: int| digit(((id as int) / vstd::arithmetic::power::pow(16, (31 - i) as nat)) % 16))
}

/// The text of a 128-bit identifier: its 32 hexadecimal digits in groups of
/// 8, 4, 4, 4 and 12, with a hyphen between the groups.
pub open spec fn id_text(id: u128) -> Seq<char> {
    let h = hex_digits(id);
    h.subrange(0, 8) + seq!['-'] + h.subrange(8, 12) + seq!['-'] + h.subrange(12, 16) + seq!['-']
        + h.subrange(16, 20) + seq!['-'] + h.subrange(20, 32)
}

/// The decimal digits of a natural number, without leading zeros.
pub open spec fn decimal_text(n: nat) -> Seq<char>
    decreases n,
{
    if n < 10 {
        seq![digit(n as int)]
    } else {
        decimal_text(n / 10).push(digit((n % 10) as int))
    }
}

/// Whether the chunks stand in ascending order of part number.
pub open spec fn sorted_by_part(s: Seq<Chunk>) -> bool {
    forall|i: int, j: int| 0 <= i <= j < s.len() ==> s[i].file_part_num <= s[j].file_part_num
}

/// The chunks of `s` whose part number is `part`, in the order in which they stand in `s`.
pub open spec fn replicas_of(s: Seq<Chunk>, part: usize) -> Seq<Chunk> {
    s.filter(|c: Chunk| c.file_part_num == part)
}

/// Whether `groups` cuts a sequence into its runs of equal part number:
/// no group is empty, one group holds one part number, and two groups that
/// follow each other hold different ones.
pub open spec fn runs_by_part(groups: Seq<Seq<Chunk>>) -> bool {
    &&& forall|g: int| 0 <= g < groups.len() ==> (#[trigger] groups[g]).len() > 0
    &&& forall|g: int, i: int|
        0 <= g < groups.len() && 0 <= i < groups[g].len() ==> (#[trigger] groups[g][i]).file_part_num
            == groups[g][0].file_part_num
    &&& forall|g: int|
        0 < g < groups.len() ==> (#[trigger] groups[g])[0].file_part_num != groups[g
            - 1][0].file_part_num
}

/// The groups of chunk records, each as a sequence.
pub open spec fn groups_view(groups: Seq<Vec<Chunk>>) -> Seq<Seq<Chunk>> {
    groups.map_values(|g: Vec<Chunk>| g@)
}

/// Calls `chrono::Utc::now` and hands back its `timestamp_millis`: the
/// milliseconds that the system clock counts since the Unix epoch. Nothing is
/// claimed of the value. The clock must not stand before the epoch.
#[verifier::external_body]
pub(crate) fn now_millis() -> (now: i64) {
    chrono::Utc::now().timestamp_millis()
}

/// Calls `uuid::Uuid::new_v4` and hands back the identifier as a 128-bit
/// number (`as_u128`). The value is random: nothing is claimed of it.
#[verifier::external_body]
pub(crate) fn fresh_id() -> (id: u128) {
    uuid::Uuid::new_v4().as_u128()
}

/// Calls `to_string` on `uuid::Uuid::from_u128(id)`: the identifier's
/// lower-case hyphenated text.
#[verifier::external_body]
pub(crate) fn id_to_text(id: u128) -> (text: String)
    ensures
        text@ == id_text(id),
{
    uuid::Uuid::from_u128(id).to_string()
}

/// Calls `to_string` on a `usize`: its decimal digits.
#[verifier::external_body]
pub(crate) fn usize_to_text(n: usize) -> (text: String)
    ensures
        text@ == decimal_text(n as nat),
{
    n.to_string()
}

/// Calls `rand::seq::SliceRandom::shuffle` with the generator of
/// `rand::thread_rng`: the items are put in a random order, and none is
/// added, lost or changed.
#[verifier::external_body]
pub(crate) fn shuffle(order: &mut Vec<usize>)
    ensures
        final(order)@.to_multiset() == old(order)@.to_multiset(),
{
    order.shuffle(&mut rand::thread_rng());
}

/// Calls `sort_by_key` of std's slices with the part number as the key. The
/// sort is stable: the records come out in ascending order of part number, and
/// those of one part keep the order they had.
#[verifier::external_body]
pub(crate) fn sort_by_part(chunks: &mut Vec<Chunk>)
    ensures
        sorted_by_part(final(chunks)@),
        final(chunks)@.len() == old(chunks)@.len(),
        forall|part: usize| #[trigger]
            replicas_of(final(chunks)@, part) == replicas_of(old(chunks)@, part),
{
    chunks.sort_by_key(|c| c.file_part_num);
}

/// Calls `slice_group_by::GroupBy::exponential_group_by_key` with the part
/// number as the key, on records that stand in ascending order of it, and
/// copies each group out. The groups are the runs of equal part number, in
/// the order of the input.
#[verifier::external_body]
pub(crate) fn group_by_part(chunks: &Vec<Chunk>) -> (groups: Vec<Vec<Chunk>>)
    requires
        sorted_by_part(chunks@),
    ensures
        groups_view(groups@).flatten() == chunks@,
        runs_by_part(groups_view(groups@)),
{
    chunks.exponential_group_by_key(|c| c.file_part_num).map(|g| g.to_vec()).collect()
}

} // verus!
