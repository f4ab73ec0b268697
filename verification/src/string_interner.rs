//! Interning of texts as shared strings.
use crate::boxed;
use crate::capacity;
use crate::shards;
use crate::text_set;
use ahash::{AHashMap, RandomState};
use std::sync::Arc;
use vstd::arithmetic::power2::*;
use vstd::prelude::*;

verus! {

/// How many shards a string interner has unless it is told otherwise.
pub const DEFAULT_SHARD_COUNT: usize = 64;

/// What a string interner holds.
#[verifier::ext_equal]
pub struct StringsView {
    /// How many shards there are.
    pub shard_count: nat,
    /// The texts.
    pub texts: Set<Seq<char>>,
}

/// The number of shards that a string interner gets when asked for `count`.
pub open spec fn strings_shard_count(count: nat) -> nat {
    shards::next_pow2(
        if count < 1 {
            1
        } else {
            count
        },
    )
}

/// Whether so many shards can be asked for: beyond this the list of shards
/// overflows the address space.
pub open spec fn shard_count_fits(count: int) -> bool {
    count <= isize::MAX / 128
}

/// The number of shards is the least power of two that is not below `count`, and
/// one for none.
pub proof fn strings_shard_count_is_the_least_power(count: nat)
    ensures
        is_pow2(strings_shard_count(count) as int),
        1 <= strings_shard_count(count),
        count <= strings_shard_count(count),
        count <= 1 ==> strings_shard_count(count) == 1,
        count > 1 ==> strings_shard_count(count) < 2 * count,
        shard_count_fits(count as int) <==> 128 * count <= isize::MAX,
{
    shards::next_pow2_bounds(
        if count < 1 {
            1
        } else {
            count
        },
    );
}

impl StringsView {
    /// A string interner without texts.
    pub open spec fn empty(shard_count: nat) -> StringsView {
        StringsView { shard_count, texts: Set::empty() }
    }

    /// Whether `text` has been interned.
    pub open spec fn has(self, text: Seq<char>) -> bool {
        self.texts.contains(text)
    }

    /// The interner once `text` has been interned.
    pub open spec fn intern(self, text: Seq<char>) -> StringsView {
        StringsView { texts: self.texts.insert(text), ..self }
    }

    /// Whether there is room for `text`.
    pub open spec fn takes(self, text: Seq<char>) -> bool {
        self.has(text) || capacity::table_capacity_fits(self.texts.len() + 1int)
    }

    /// There are finitely many texts, and few enough for one table.
    pub open spec fn valid(self) -> bool {
        &&& 1 <= self.shard_count
        &&& is_pow2(self.shard_count as int)
        &&& self.texts.finite()
        &&& capacity::table_capacity_fits(self.texts.len() as int)
    }

    /// A new interner holds no text; interning adds the text to those that are
    /// held and leaves the shards as they are; and there is room for a text that
    /// is held already, and for another one where the table for all can be had.
    pub proof fn texts_are_those_interned(self, shard_count: nat, text: Seq<char>)
        ensures
            StringsView::empty(shard_count).shard_count == shard_count,
            !StringsView::empty(shard_count).texts.contains(text),
            self.has(text) <==> self.texts.contains(text),
            self.intern(text).texts == self.texts.insert(text),
            self.intern(text).shard_count == self.shard_count,
            self.takes(text) <==> self.texts.contains(text)
                || capacity::table_capacity_fits(self.texts.len() as int + 1),
    {
    }

    /// Interning a text makes it known and makes nothing else known; doing it
    /// again changes nothing.
    pub proof fn intern_is_idempotent(self, text: Seq<char>)
        ensures
            self.intern(text).has(text),
            forall|other: Seq<char>| #[trigger]
                self.intern(text).has(other) <==> self.has(other) || other == text,
            self.intern(text).intern(text) == self.intern(text),
            self.has(text) ==> self.intern(text) == self,
    {
        assert(self.intern(text).intern(text) =~= self.intern(text));
        if self.has(text) {
            assert(self.intern(text) =~= self);
        }
    }

    /// Every new text counts once.
    pub proof fn intern_counts_new_texts(self, text: Seq<char>)
        requires
            self.valid(),
        ensures
            self.intern(text).texts.len() == self.texts.len() + if self.has(text) {
                0int
            } else {
                1
            },
    {
        self.intern_is_idempotent(text);
    }

    /// The order in which two texts are interned makes no difference.
    pub proof fn intern_commutes(self, a: Seq<char>, b: Seq<char>)
        ensures
            self.intern(a).intern(b) == self.intern(b).intern(a),
    {
        assert(self.intern(a).intern(b) =~= self.intern(b).intern(a));
    }

    /// An interner stays valid when it takes a text.
    pub proof fn intern_keeps_valid(self, text: Seq<char>)
        requires
            self.valid(),
            self.takes(text),
        ensures
            self.intern(text).valid(),
    {
        self.intern_counts_new_texts(text);
    }
}

/// The shard of a text.
spec fn shard_of(hashes: Map<Seq<char>, u64>, shard_count: nat, text: Seq<char>) -> int {
    (hashes[text] as usize & (shard_count - 1) as usize) as int
}

/// Those texts that belong to a shard.
spec fn shard_texts(
    hashes: Map<Seq<char>, u64>,
    shard_count: nat,
    texts: Set<Seq<char>>,
    shard: int,
) -> Set<Seq<char>> {
    texts.filter(|t: Seq<char>| shard_of(hashes, shard_count, t) == shard)
}

/// Those texts that belong to one of the first `n` shards.
spec fn texts_below(
    hashes: Map<Seq<char>, u64>,
    shard_count: nat,
    texts: Set<Seq<char>>,
    n: int,
) -> Set<Seq<char>> {
    texts.filter(|t: Seq<char>| shard_of(hashes, shard_count, t) < n)
}

proof fn lemma_shard_of(hashes: Map<Seq<char>, u64>, shard_count: nat, text: Seq<char>)
    requires
        1 <= shard_count <= usize::MAX,
    ensures
        0 <= shard_of(hashes, shard_count, text) < shard_count,
{
    let hash = hashes[text] as usize;
    let mask = (shard_count - 1) as usize;
    assert(hash & mask <= mask) by (bit_vector);
}

/// One part of the shards: a hash map whose keys are the texts.
struct Shard {
    entries: AHashMap<Arc<str>, ()>,
}

/// A set of texts, of which each is held once and handed out as a shared
/// string.
pub struct StringInterner {
    shards: Vec<Shard>,
    hash_builder: RandomState,
    held: Ghost<Map<Seq<char>, Arc<str>>>,
}

impl View for StringInterner {
    type V = StringsView;

    closed spec fn view(&self) -> StringsView {
        StringsView { shard_count: self.shards@.len(), texts: self.held@.dom() }
    }
}

impl StringInterner {
    /// The texts that belong to a shard.
    spec fn texts_of(&self, shard: int) -> Set<Seq<char>> {
        shard_texts(
            text_set::hash_function(self.hash_builder),
            self.shards@.len(),
            self.held@.dom(),
            shard,
        )
    }

    /// The shared strings of the texts that belong to a shard.
    spec fn held_by(&self, shard: int) -> Map<Seq<char>, Arc<str>> {
        self.held@.restrict(self.texts_of(shard))
    }

    /// The shared string that is held for each interned text. Two shared strings
    /// are known to be equal where one is a clone of the other; a new allocation
    /// with the same text is not.
    pub closed spec fn held(&self) -> Map<Seq<char>, Arc<str>> {
        self.held@
    }

    /// The shards hold what the view says, and every shared string has the text
    /// that it is held for.
    pub closed spec fn represents_view(&self) -> bool {
        &&& forall|s: int|
            0 <= s < self.shards@.len() ==> text_set::map_texts((#[trigger] self.shards@[s]).entries)
                == self.held_by(s)
        &&& forall|t: Seq<char>| #[trigger]
            self.held@.contains_key(t) ==> (*self.held@[t])@ == t
    }

    /// Whether a request for `text` between two states of an interner handed out
    /// `shared`: the string that is held for the text, which is the one held
    /// before where there was one; all other texts keep theirs.
    pub open spec fn hands_out(
        before: StringInterner,
        after: StringInterner,
        text: Seq<char>,
        shared: Arc<str>,
    ) -> bool {
        &&& after.held() == if before.held().contains_key(text) {
            before.held()
        } else {
            before.held().insert(text, shared)
        }
        &&& after.held()[text] == shared
    }

    /// An interned text has a shared string with that text, and no other text
    /// has one.
    pub proof fn interned_texts_are_held(&self, text: Seq<char>)
        requires
            self.wf(),
        ensures
            self.held().contains_key(text) <==> self@.has(text),
            self@.has(text) ==> (*self.held()[text])@ == text,
    {
    }

    /// Asking for a text again, with any requests in between, hands out the very
    /// string that was handed out first.
    pub proof fn one_text_is_one_string(
        first: (StringInterner, StringInterner),
        second: (StringInterner, StringInterner),
        text: Seq<char>,
        a: Arc<str>,
        b: Arc<str>,
    )
        requires
            StringInterner::hands_out(first.0, first.1, text, a),
            first.1.held().submap_of(second.0.held()),
            StringInterner::hands_out(second.0, second.1, text, b),
        ensures
            a == b,
            second.1.held()[text] == a,
    {
        assert(first.1.held().contains_key(text));
        assert(second.0.held().contains_key(text));
        assert(second.0.held()[text] == first.1.held()[text]);
    }

    /// A request for one text leaves the string of every other text as it is.
    pub proof fn strings_are_kept(
        before: StringInterner,
        after: StringInterner,
        text: Seq<char>,
        shared: Arc<str>,
        known: Seq<char>,
    )
        requires
            StringInterner::hands_out(before, after, text, shared),
            before.held().contains_key(known),
        ensures
            after.held().contains_key(known),
            after.held()[known] == before.held()[known],
            before.held().submap_of(after.held()),
            before.held().contains_key(text) ==> after.held() == before.held() && shared
                == before.held()[text],
    {
    }

    /// The interner is well formed.
    pub open spec fn wf(&self) -> bool {
        self@.valid() && self.represents_view()
    }

    /// An interner with the default number of shards.
    pub fn new() -> (interner: StringInterner)
        ensures
            interner.wf(),
            interner@ == StringsView::empty(DEFAULT_SHARD_COUNT as nat),
    {
        proof {
            lemma_default_shards();
        }
        StringInterner::with_shard_count(DEFAULT_SHARD_COUNT)
    }

    /// An interner with `count` shards, rounded up to a power of two.
    pub fn with_shard_count(count: usize) -> (interner: StringInterner)
        requires
            shard_count_fits(count as int),
        ensures
            interner.wf(),
            interner@ == StringsView::empty(strings_shard_count(count as nat)),
    {
        let count: usize = StringInterner::rounded_shard_count(count);
        let mut shards: Vec<Shard> = Vec::with_capacity(count);
        let mut i: usize = 0;
        while i < count
            invariant
                i <= count,
                shards@.len() == i,
                forall|s: int|
                    0 <= s < i ==> text_set::map_texts((#[trigger] shards@[s]).entries).dom()
                        == Set::<Seq<char>>::empty(),
            decreases count - i,
        {
            shards.push(Shard { entries: text_set::new_map() });
            i = i + 1;
        }
        StringInterner::with_empty_shards(shards)
    }

    /// An interner with the default number of shards and with room for
    /// `capacity` texts. The room only saves growing later: how much has been
    /// allocated is not part of the contract.
    pub fn with_capacity(capacity: usize) -> (interner: StringInterner)
        requires
            capacity::table_capacity_fits(
                shards::ceil_div(capacity as int, DEFAULT_SHARD_COUNT as int),
            ),
        ensures
            interner.wf(),
            interner@ == StringsView::empty(DEFAULT_SHARD_COUNT as nat),
    {
        proof {
            lemma_default_shards();
        }
        StringInterner::with_capacity_and_shards(capacity, DEFAULT_SHARD_COUNT)
    }

    /// An interner with room for `capacity` texts and with `count` shards,
    /// rounded up to a power of two. How much has been allocated is not part of
    /// the contract.
    pub fn with_capacity_and_shards(capacity: usize, count: usize) -> (interner: StringInterner)
        requires
            shard_count_fits(count as int),
            capacity::table_capacity_fits(
                shards::ceil_div(capacity as int, strings_shard_count(count as nat) as int),
            ),
        ensures
            interner.wf(),
            interner@ == StringsView::empty(strings_shard_count(count as nat)),
    {
        let count: usize = StringInterner::rounded_shard_count(count);
        let per_shard: usize = shards::div_ceil(capacity, count);
        let mut shards: Vec<Shard> = Vec::with_capacity(count);
        let mut i: usize = 0;
        while i < count
            invariant
                i <= count,
                shards@.len() == i,
                capacity::table_capacity_fits(per_shard as int),
                forall|s: int|
                    0 <= s < i ==> text_set::map_texts((#[trigger] shards@[s]).entries).dom()
                        == Set::<Seq<char>>::empty(),
            decreases count - i,
        {
            shards.push(Shard { entries: text_set::map_with_capacity(per_shard) });
            i = i + 1;
        }
        StringInterner::with_empty_shards(shards)
    }

    /// The number of shards for an interner that is asked for `count`.
    fn rounded_shard_count(count: usize) -> (rounded: usize)
        requires
            shard_count_fits(count as int),
        ensures
            rounded == strings_shard_count(count as nat),
            1 <= rounded,
            is_pow2(rounded as int),
    {
        let wanted: usize = if count < 1 {
            1
        } else {
            count
        };
        proof {
            shards::next_pow2_bounds(wanted as nat);
        }
        shards::next_power_of_two(wanted)
    }

    /// An interner with the given shards, which are all empty.
    fn with_empty_shards(shards: Vec<Shard>) -> (interner: StringInterner)
        requires
            shards@.len() >= 1,
            is_pow2(shards@.len() as int),
            forall|s: int|
                0 <= s < shards@.len() ==> text_set::map_texts((#[trigger] shards@[s]).entries).dom()
                    == Set::<Seq<char>>::empty(),
        ensures
            interner.wf(),
            interner@ == StringsView::empty(shards@.len()),
    {
        let interner = StringInterner {
            shards,
            hash_builder: text_set::random_state(),
            held: Ghost(Map::empty()),
        };
        proof {
            assert forall|s: int| 0 <= s < interner.shards@.len() implies text_set::map_texts(
                (#[trigger] interner.shards@[s]).entries,
            ) == interner.held_by(s) by {
                assert(interner.held_by(s) =~= Map::empty());
            }
            assert(interner@.texts =~= Set::empty());
        }
        interner
    }

    /// The hash of `value` under the keys of this interner.
    fn hash(&self, value: &str) -> (hash: u64)
        ensures
            hash == text_set::hash_function(self.hash_builder)[value@],
    {
        text_set::hash_with(&self.hash_builder, value)
    }

    /// The shard for a hash.
    fn shard_for_hash(&self, hash: u64) -> (index: usize)
        requires
            self.shards@.len() >= 1,
        ensures
            index == hash as usize & (self.shards@.len() - 1) as usize,
            index < self.shards@.len(),
    {
        let mask: usize = self.shards.len() - 1;
        let low: usize = hash as usize;
        assert(low & mask <= mask) by (bit_vector);
        low & mask
    }

    /// Looks `value` up in the shard for its hash.
    fn find(&self, value: &str) -> (text: Option<&Arc<str>>)
        requires
            self.wf(),
        ensures
            match text {
                Some(t) => {
                    &&& self@.has(value@)
                    &&& *t == self.held()[value@]
                    &&& (**t)@ == value@
                },
                None => !self@.has(value@),
            },
    {
        let index: usize = self.shard_for_hash(self.hash(value));
        assert(text_set::map_texts(self.shards@[index as int].entries) == self.held_by(
            index as int,
        ));
        text_set::find_key(&self.shards[index].entries, value)
    }

    /// Adds a text that is not interned yet.
    fn add(&mut self, text: &Arc<str>)
        requires
            old(self).wf(),
            !old(self)@.has((**text)@),
            old(self)@.takes((**text)@),
        ensures
            final(self).wf(),
            final(self)@ == old(self)@.intern((**text)@),
            final(self).held() == old(self).held().insert((**text)@, *text),
    {
        let ghost v = (**text)@;
        let ghost before = *self;
        let index: usize = self.shard_for_hash(self.hash(text));
        proof {
            assert(text_set::map_texts(self.shards@[index as int].entries) == self.held_by(
                index as int,
            ));
            assert(self.held_by(index as int).dom() =~= self.texts_of(index as int));
            vstd::set_lib::lemma_len_subset(self.texts_of(index as int), self.held@.dom());
            self@.intern_keeps_valid(v);
        }
        text_set::insert_key(&mut self.shards[index].entries, boxed::share(text));
        self.held = Ghost(self.held@.insert(v, *text));
        proof {
            assert(self@.texts =~= before@.texts.insert(v));
            assert forall|s: int| 0 <= s < self.shards@.len() implies text_set::map_texts(
                (#[trigger] self.shards@[s]).entries,
            ) == self.held_by(s) by {
                assert(text_set::map_texts(before.shards@[s].entries) == before.held_by(s));
                if s == index {
                    assert(self.held_by(s) =~= before.held_by(s).insert(v, *text));
                } else {
                    assert(self.held_by(s) =~= before.held_by(s));
                }
            }
        }
    }

    /// The shared string for `value`, which is interned if it is not yet.
    ///
    /// Every call with the same text hands out the same allocation, until the
    /// interner is cleared.
    pub fn intern(&mut self, value: &str) -> (text: Arc<str>)
        requires
            old(self).wf(),
            old(self)@.takes(value@),
        ensures
            final(self).wf(),
            final(self)@ == old(self)@.intern(value@),
            (*text)@ == value@,
            StringInterner::hands_out(*old(self), *final(self), value@, text),
            final(self).held()[value@] == text,
            old(self)@.has(value@) ==> text == old(self).held()[value@],
    {
        proof {
            self@.intern_is_idempotent(value@);
        }
        if let Some(existing) = self.find(value) {
            return boxed::share(existing);
        }
        let interned: Arc<str> = boxed::shared_from_slice(value);
        self.add(&interned);
        interned
    }

    /// The shared string for `value`, which is interned if it is not yet. The
    /// buffer of `value` is given up.
    pub fn intern_string(&mut self, value: String) -> (text: Arc<str>)
        requires
            old(self).wf(),
            old(self)@.takes(value@),
        ensures
            final(self).wf(),
            final(self)@ == old(self)@.intern(value@),
            (*text)@ == value@,
            StringInterner::hands_out(*old(self), *final(self), value@, text),
            final(self).held()[value@] == text,
            old(self)@.has(value@) ==> text == old(self).held()[value@],
    {
        proof {
            self@.intern_is_idempotent(value@);
        }
        if let Some(existing) = self.find(value.as_str()) {
            return boxed::share(existing);
        }
        let interned: Arc<str> = boxed::shared_from_box(boxed::boxed_text(value));
        self.add(&interned);
        interned
    }

    /// The shared string for `value`, if it is interned.
    pub fn get(&self, value: &str) -> (text: Option<Arc<str>>)
        requires
            self.wf(),
        ensures
            match text {
                Some(t) => {
                    &&& self@.has(value@)
                    &&& t == self.held()[value@]
                    &&& (*t)@ == value@
                },
                None => !self@.has(value@),
            },
    {
        match self.find(value) {
            Some(existing) => Some(boxed::share(existing)),
            None => None,
        }
    }

    /// Whether `value` is interned.
    pub fn contains(&self, value: &str) -> (contained: bool)
        requires
            self.wf(),
        ensures
            contained == self@.has(value@),
    {
        self.get(value).is_some()
    }

    /// How many texts are interned.
    pub fn len(&self) -> (len: usize)
        requires
            self.wf(),
        ensures
            len == self@.texts.len(),
    {
        let ghost hashes = text_set::hash_function(self.hash_builder);
        let ghost count = self.shards@.len();
        let mut len: usize = 0;
        let mut i: usize = 0;
        assert(texts_below(hashes, count, self.held@.dom(), 0) =~= Set::empty());
        while i < self.shards.len()
            invariant
                self.wf(),
                hashes == text_set::hash_function(self.hash_builder),
                count == self.shards@.len(),
                i <= count,
                len == texts_below(hashes, count, self.held@.dom(), i as int).len(),
            decreases self.shards@.len() - i,
        {
            proof {
                let below = texts_below(hashes, count, self.held@.dom(), i as int);
                let next = texts_below(hashes, count, self.held@.dom(), i + 1);
                assert(text_set::map_texts(self.shards@[i as int].entries) == self.held_by(
                    i as int,
                ));
                assert(self.held_by(i as int).dom() =~= self.texts_of(i as int));
                assert(below.disjoint(self.texts_of(i as int)));
                vstd::set_lib::lemma_set_disjoint_lens(below, self.texts_of(i as int));
                assert(next =~= below + self.texts_of(i as int));
                vstd::set_lib::lemma_len_subset(next, self.held@.dom());
            }
            len = len + text_set::key_count(&self.shards[i].entries);
            i = i + 1;
        }
        proof {
            assert(texts_below(hashes, count, self.held@.dom(), count as int) =~= self.held@.dom()) by {
                assert forall|t: Seq<char>| shard_of(hashes, count, t) < count by {
                    lemma_shard_of(hashes, count, t);
                }
            }
        }
        len
    }

    /// Whether no text is interned.
    pub fn is_empty(&self) -> (empty: bool)
        requires
            self.wf(),
        ensures
            empty <==> self@.texts == Set::<Seq<char>>::empty(),
    {
        let ghost hashes = text_set::hash_function(self.hash_builder);
        let ghost count = self.shards@.len();
        let mut i: usize = 0;
        while i < self.shards.len()
            invariant
                self.wf(),
                hashes == text_set::hash_function(self.hash_builder),
                count == self.shards@.len(),
                i <= count,
                forall|t: Seq<char>|
                    self.held@.dom().contains(t) ==> #[trigger] shard_of(hashes, count, t) >= i,
            decreases self.shards@.len() - i,
        {
            assert(text_set::map_texts(self.shards@[i as int].entries) == self.held_by(
                i as int,
            ));
            assert(self.held_by(i as int).dom() =~= self.texts_of(i as int));
            if !text_set::has_no_keys(&self.shards[i].entries) {
                proof {
                    if self.held@.dom() == Set::<Seq<char>>::empty() {
                        assert(self.held_by(i as int) =~= Map::empty());
                    }
                }
                return false;
            }
            proof {
                assert forall|t: Seq<char>| self.held@.dom().contains(t) implies #[trigger] shard_of(
                    hashes,
                    count,
                    t,
                ) >= i + 1 by {
                    assert(!self.held_by(i as int).contains_key(t));
                }
            }
            i = i + 1;
        }
        proof {
            assert forall|t: Seq<char>| !self.held@.dom().contains(t) by {
                lemma_shard_of(hashes, count, t);
            }
            assert(self.held@.dom() =~= Set::empty());
        }
        true
    }

    /// Makes room for `additional` more texts, spread over the shards; the
    /// texts stay the same. The room only saves growing later: how much has
    /// been allocated is not part of the contract.
    pub fn reserve(&mut self, additional: usize)
        requires
            old(self).wf(),
            capacity::table_capacity_fits(
                old(self)@.texts.len() + shards::ceil_div(
                    additional as int,
                    old(self)@.shard_count as int,
                ),
            ),
        ensures
            final(self).wf(),
            final(self)@ == old(self)@,
            final(self).held() == old(self).held(),
    {
        let per_shard: usize = shards::div_ceil(additional, self.shards.len());
        let mut i: usize = 0;
        while i < self.shards.len()
            invariant
                self.wf(),
                self@ == old(self)@,
                self.held() == old(self).held(),
                capacity::table_capacity_fits(self@.texts.len() + per_shard),
            decreases self.shards@.len() - i,
        {
            let ghost before = *self;
            proof {
                assert(text_set::map_texts(self.shards@[i as int].entries) == self.held_by(
                    i as int,
                ));
                assert(self.held_by(i as int).dom() =~= self.texts_of(i as int));
                vstd::set_lib::lemma_len_subset(self.texts_of(i as int), self.held@.dom());
            }
            text_set::reserve_keys(&mut self.shards[i].entries, per_shard);
            proof {
                assert forall|s: int| 0 <= s < self.shards@.len() implies text_set::map_texts(
                    (#[trigger] self.shards@[s]).entries,
                ) == self.held_by(s) by {
                    assert(text_set::map_texts(before.shards@[s].entries) == before.held_by(s));
                    assert(self.held_by(s) == before.held_by(s));
                }
            }
            i = i + 1;
        }
    }

    /// Removes all texts.
    pub fn clear(&mut self)
        requires
            old(self).wf(),
        ensures
            final(self).wf(),
            final(self)@ == StringsView::empty(old(self)@.shard_count),
            final(self).held().dom() == Set::<Seq<char>>::empty(),
    {
        let mut i: usize = 0;
        let ghost count = self.shards@.len();
        while i < self.shards.len()
            invariant
                count == self.shards@.len(),
                i <= count,
                forall|s: int|
                    0 <= s < i ==> text_set::map_texts((#[trigger] self.shards@[s]).entries).dom()
                        == Set::<Seq<char>>::empty(),
            decreases self.shards@.len() - i,
        {
            text_set::clear_keys(&mut self.shards[i].entries);
            i = i + 1;
        }
        self.held = Ghost(Map::empty());
        proof {
            assert forall|s: int| 0 <= s < self.shards@.len() implies text_set::map_texts(
                (#[trigger] self.shards@[s]).entries,
            ) == self.held_by(s) by {
                assert(self.held_by(s) =~= Map::empty());
            }
            assert(self@.texts =~= Set::empty());
        }
    }
}

impl Default for StringInterner {
    fn default() -> (interner: StringInterner)
        ensures
            interner.wf(),
            interner@ == StringsView::empty(DEFAULT_SHARD_COUNT as nat),
    {
        StringInterner::new()
    }
}

proof fn lemma_default_shards()
    ensures
        strings_shard_count(DEFAULT_SHARD_COUNT as nat) == DEFAULT_SHARD_COUNT,
        shard_count_fits(DEFAULT_SHARD_COUNT as int),
{
    reveal_with_fuel(shards::doubled_up_to, 8);
}

} // verus!
