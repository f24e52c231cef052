//! Dirty-page bitmaps: one bit per guest page, 64 pages per word.
use std::collections::HashMap;

use vstd::prelude::*;

verus! {

broadcast use {
    vstd::seq::group_seq_axioms,
    vstd::map::group_map_axioms,
    vstd::std_specs::hash::group_hash_axioms,
};

/// The dirty bitmaps of a VM, one per KVM memslot id.
pub type SlotBitmaps = HashMap<u32, Vec<u64>>;

/// Whether bit `bit` of `word` is set.
pub open spec fn bit_set(word: u64, bit: u64) -> bool {
    (word >> bit) & 1 == 1
}

/// Whether `bitmap` marks page number `page`.
pub open spec fn page_marked(bitmap: Seq<u64>, page: u64) -> bool {
    &&& page / 64 < bitmap.len()
    &&& bit_set(bitmap[(page / 64) as int], page % 64)
}

/// `bitmap`, extended by zero words until it holds page number `page`.
pub open spec fn grown_to(bitmap: Seq<u64>, page: u64) -> Seq<u64> {
    if bitmap.len() <= page / 64 {
        bitmap + Seq::new((page / 64 + 1 - bitmap.len()) as nat, |i: int| 0u64)
    } else {
        bitmap
    }
}

/// `bitmap` with page number `page` marked: grown as far as needed, with that one bit set.
pub open spec fn with_page(bitmap: Seq<u64>, page: u64) -> Seq<u64> {
    let grown = grown_to(bitmap, page);
    let word = (page / 64) as int;
    grown.update(word, grown[word] | (1u64 << (page % 64)))
}

/// The bitmaps as mathematical values.
pub open spec fn bitmaps(slots: Map<u32, Vec<u64>>) -> Map<u32, Seq<u64>> {
    slots.map_values(|v: Vec<u64>| v@)
}

/// The bitmap of `slot`, empty when there is none yet.
pub open spec fn bitmap_of(slots: Map<u32, Seq<u64>>, slot: u32) -> Seq<u64> {
    if slots.contains_key(slot) {
        slots[slot]
    } else {
        Seq::empty()
    }
}

/// `slots` with page number `page` of memslot `slot` marked.
pub open spec fn with_slot_page(slots: Map<u32, Seq<u64>>, slot: u32, page: u64) -> Map<
    u32,
    Seq<u64>,
> {
    slots.insert(slot, with_page(bitmap_of(slots, slot), page))
}

/// Whether `slots` marks page number `page` of memslot `slot`.
pub open spec fn slot_page_marked(slots: Map<u32, Seq<u64>>, slot: u32, page: u64) -> bool {
    page_marked(bitmap_of(slots, slot), page)
}

/// Setting a bit sets that bit and changes no other.
proof fn lemma_set_bit(word: u64, bit: u64, other: u64)
    requires
        bit < 64,
        other < 64,
    ensures
        bit_set(word | (1u64 << bit), other) <==> bit_set(word, other) || other == bit,
{
    assert(((word | (1u64 << bit)) >> other) & 1 == 1 <==> (word >> other) & 1 == 1 || other == bit)
        by (bit_vector)
        requires
            bit < 64,
            other < 64,
    ;
}

/// A zero word marks nothing.
proof fn lemma_zero_word(bit: u64)
    requires
        bit < 64,
    ensures
        !bit_set(0u64, bit),
{
    assert((0u64 >> bit) & 1 != 1) by (bit_vector);
}

/// Marking a page marks exactly that page: every page marked before stays marked, and no
/// other page becomes marked.
pub proof fn law_with_page_marks_one_page(bitmap: Seq<u64>, page: u64, other: u64)
    ensures
        page_marked(with_page(bitmap, page), other) <==> page_marked(bitmap, other) || other
            == page,
{
    let grown = grown_to(bitmap, page);
    let word = (page / 64) as int;
    assert(page_marked(grown, other) <==> page_marked(bitmap, other)) by {
        if other / 64 >= bitmap.len() && other / 64 < grown.len() {
            assert(grown[(other / 64) as int] == 0);
            lemma_zero_word(other % 64);
        }
    }
    if other / 64 == page / 64 {
        lemma_set_bit(grown[word], page % 64, other % 64);
    }
}

/// Marking a page of one memslot marks exactly that page of that memslot.
pub proof fn law_with_slot_page_marks_one_page(
    slots: Map<u32, Seq<u64>>,
    slot: u32,
    page: u64,
    other_slot: u32,
    other: u64,
)
    ensures
        slot_page_marked(with_slot_page(slots, slot, page), other_slot, other)
            <==> slot_page_marked(slots, other_slot, other) || (other_slot == slot && other
            == page),
{
    law_with_page_marks_one_page(bitmap_of(slots, slot), page, other);
}

/// Page `p` is bit `p % 64` of word `p / 64`. Marking a page sets its bit, changes no other bit,
/// and makes the bitmap longer only where it was too short for the page, and then just long
/// enough.
pub proof fn law_marking_sets_one_bit(bitmap: Seq<u64>, page: u64)
    ensures
        with_page(bitmap, page).len() == if bitmap.len() > page / 64 {
            bitmap.len() as int
        } else {
            page / 64 + 1
        },
        forall|word: int, bit: u64|
            0 <= word < with_page(bitmap, page).len() && bit < 64 ==> ((#[trigger] (with_page(
                bitmap,
                page,
            )[word] >> bit)) & 1 == 1 <==> (word * 64 + bit == page || (word < bitmap.len() && (
            bitmap[word] >> bit) & 1 == 1))),
{
    let marked = with_page(bitmap, page);
    assert forall|word: int, bit: u64| 0 <= word < marked.len() && bit < 64 implies ((
    #[trigger] (marked[word] >> bit)) & 1 == 1 <==> (word * 64 + bit == page || (word
        < bitmap.len() && (bitmap[word] >> bit) & 1 == 1))) by {
        let grown = grown_to(bitmap, page);
        if word >= bitmap.len() {
            assert(grown[word] == 0);
            lemma_zero_word(bit);
        }
        if word == page / 64 {
            lemma_set_bit(grown[word], page % 64, bit);
        }
    }
}

/// Marking a page of a memslot leaves all other memslots alone, and gives the memslot a bitmap
/// where it has none.
pub proof fn law_marking_leaves_other_slots(slots: Map<u32, Seq<u64>>, slot: u32, page: u64)
    ensures
        ({
            let after = with_slot_page(slots, slot, page);
            &&& after.dom() == slots.dom().insert(slot)
            &&& forall|other: u32|
                other != slot && #[trigger] slots.contains_key(other) ==> after[other]
                    == slots[other]
            &&& slots.contains_key(slot) ==> after[slot] == with_page(slots[slot], page)
            &&& !slots.contains_key(slot) ==> after[slot] == with_page(Seq::empty(), page)
        }),
{
    assert(with_slot_page(slots, slot, page).dom() =~= slots.dom().insert(slot));
}

/// A page of a memslot is marked exactly when the memslot has a bitmap and that has the page's
/// bit set.
pub proof fn law_marked_is_a_bit(slots: Map<u32, Seq<u64>>, slot: u32, page: u64)
    ensures
        slot_page_marked(slots, slot, page) <==> slots.contains_key(slot) && page / 64
            < slots[slot].len() && (slots[slot][(page / 64) as int] >> (page % 64)) & 1 == 1,
{
}

/// The bitmaps of a table are those of its vectors, memslot by memslot.
pub proof fn law_bitmaps_are_the_vectors(slots: Map<u32, Vec<u64>>)
    ensures
        bitmaps(slots).dom() == slots.dom(),
        forall|slot: u32|
            #[trigger] slots.contains_key(slot) ==> bitmaps(slots)[slot] == slots[slot]@,
{
}

/// Marks page number `page` in `bitmap`, which grows as far as needed.
pub fn mark_page(bitmap: &mut Vec<u64>, page: u64)
    requires
        page / 64 < usize::MAX,
    ensures
        final(bitmap)@ == with_page(old(bitmap)@, page),
        page / 64 < final(bitmap)@.len(),
        (final(bitmap)@[(page / 64) as int] >> (page % 64)) & 1 == 1,
        forall|word: int|
            0 <= word < old(bitmap)@.len() && word != page / 64 ==> #[trigger] final(bitmap)@[word]
                == old(bitmap)@[word],
{
    proof {
        law_marking_sets_one_bit(bitmap@, page);
        assert((with_page(bitmap@, page)[(page / 64) as int] >> (page % 64)) & 1 == 1);
    }
    let word: usize = (page / 64) as usize;
    let bit: u64 = page % 64;
    if bitmap.len() <= word {
        bitmap.resize(word + 1, 0);
    }
    assert(bitmap@ =~= grown_to(old(bitmap)@, page));
    let marked: u64 = bitmap[word] | (1u64 << bit);
    bitmap.set(word, marked);
}

/// Marks page number `page` of memslot `slot`.
pub fn mark_slot_page(slots: &mut SlotBitmaps, slot: u32, page: u64)
    requires
        page / 64 < usize::MAX,
    ensures
        bitmaps(final(slots)@) == with_slot_page(bitmaps(old(slots)@), slot, page),
        final(slots)@.contains_key(slot),
        page / 64 < final(slots)@[slot]@.len(),
        (final(slots)@[slot]@[(page / 64) as int] >> (page % 64)) & 1 == 1,
{
    let mut bitmap: Vec<u64> = match slots.remove(&slot) {
        Some(bitmap) => bitmap,
        None => Vec::new(),
    };
    assert(bitmap@ == bitmap_of(bitmaps(old(slots)@), slot));
    mark_page(&mut bitmap, page);
    slots.insert(slot, bitmap);
    assert(bitmaps(slots@) =~= with_slot_page(bitmaps(old(slots)@), slot, page));
}

} // verus!
