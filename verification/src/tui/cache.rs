//! Decoded previews kept in memory, least recently used first.

use crate::cli::montage::{ImageModel, PreviewImage};
use crate::text::same_text;
use crate::tui::modes::FitMode;
use vstd::prelude::*;

verus! {

/// What a preview was made for.
#[derive(Debug)]
pub struct PreviewCacheKey {
    /// Path of the file.
    pub path: String,
    /// Requested width.
    pub width: u32,
    /// Requested height.
    pub height: u32,
    /// Requested fit.
    pub fit: FitMode,
}

/// A key as a mathematical value.
#[verifier::ext_equal]
pub struct KeyModel {
    pub path: Seq<char>,
    pub width: u32,
    pub height: u32,
    pub fit: FitMode,
}

impl View for PreviewCacheKey {
    type V = KeyModel;

    open spec fn view(&self) -> KeyModel {
        KeyModel { path: self.path@, width: self.width, height: self.height, fit: self.fit }
    }
}

fn same_key(a: &PreviewCacheKey, b: &PreviewCacheKey) -> (same: bool)
    ensures
        same == (a@ == b@),
{
    a.width == b.width && a.height == b.height && a.fit == b.fit && same_text(
        a.path.as_str(),
        b.path.as_str(),
    )
}

/// A cached preview.
pub struct CacheEntry {
    key: PreviewCacheKey,
    image: PreviewImage,
}

/// A bounded number of previews; when it is full, the one that was not used for
/// the longest time leaves.
pub struct PreviewCache {
    capacity: usize,
    entries: Vec<CacheEntry>,
}

/// First position at or behind `from` with a key.
pub open spec fn key_from(entries: Seq<(KeyModel, ImageModel)>, key: KeyModel, from: int) -> Option<int>
    decreases entries.len() - from,
{
    if from < 0 || from >= entries.len() {
        None
    } else if entries[from].0 == key {
        Some(from)
    } else {
        key_from(entries, key, from + 1)
    }
}

/// Entries with the one at a position moved to the end.
pub open spec fn touched(entries: Seq<(KeyModel, ImageModel)>, at: int) -> Seq<(KeyModel, ImageModel)> {
    entries.remove(at).push(entries[at])
}

/// Entries after a look-up.
pub open spec fn after_get(entries: Seq<(KeyModel, ImageModel)>, key: KeyModel) -> Seq<
    (KeyModel, ImageModel),
> {
    match key_from(entries, key, 0) {
        Some(at) => touched(entries, at),
        None => entries,
    }
}

/// Entries after an insertion.
pub open spec fn after_insert(
    entries: Seq<(KeyModel, ImageModel)>,
    capacity: nat,
    key: KeyModel,
    image: ImageModel,
) -> Seq<(KeyModel, ImageModel)> {
    if capacity == 0 {
        entries
    } else {
        match key_from(entries, key, 0) {
            Some(at) => entries.remove(at).push((key, image)),
            None => if entries.len() >= capacity {
                entries.skip(entries.len() - capacity + 1).push((key, image))
            } else {
                entries.push((key, image))
            },
        }
    }
}

/// Whether no key occurs twice.
pub open spec fn keys_differ(entries: Seq<(KeyModel, ImageModel)>) -> bool {
    forall|i: int, j: int|
        0 <= i < j < entries.len() ==> #[trigger] entries[i].0 != #[trigger] entries[j].0
}

/// The search finds a position exactly when there is one.
proof fn lemma_key_from(entries: Seq<(KeyModel, ImageModel)>, key: KeyModel, from: int)
    requires
        0 <= from <= entries.len(),
    ensures
        match key_from(entries, key, from) {
            Some(at) => from <= at < entries.len() && entries[at].0 == key && forall|j: int|
                from <= j < at ==> #[trigger] entries[j].0 != key,
            None => forall|j: int| from <= j < entries.len() ==> #[trigger] entries[j].0 != key,
        },
    decreases entries.len() - from,
{
    if from < entries.len() && entries[from].0 != key {
        lemma_key_from(entries, key, from + 1);
    }
}

/// Keys and previews of entries.
spec fn content_of(entries: Seq<CacheEntry>) -> Seq<(KeyModel, ImageModel)> {
    entries.map_values(|entry: CacheEntry| (entry.key@, entry.image@))
}

impl PreviewCache {
    /// Entries, least recently used first.
    pub closed spec fn content(self) -> Seq<(KeyModel, ImageModel)> {
        content_of(self.entries@)
    }

    /// Largest number of entries.
    pub closed spec fn limit(self) -> nat {
        self.capacity as nat
    }

    /// Whether the bound holds and no key occurs twice.
    pub open spec fn sound(self) -> bool {
        self.content().len() <= self.limit() && keys_differ(self.content())
    }

    #[verifier::type_invariant]
    spec fn stays_sound(self) -> bool {
        self.sound()
    }

    /// Creates an empty cache.
    pub fn new(capacity: usize) -> (cache: Self)
        ensures
            cache.content() == Seq::<(KeyModel, ImageModel)>::empty(),
            cache.limit() == capacity,
            cache.sound(),
    {
        let cache = Self { capacity, entries: Vec::new() };
        assert(cache.content() =~= Seq::<(KeyModel, ImageModel)>::empty());
        cache
    }

    fn position(&self, key: &PreviewCacheKey) -> (at: Option<usize>)
        ensures
            match at {
                Some(at) => key_from(self.content(), key@, 0) == Some(at as int) && at
                    < self.entries@.len(),
                None => key_from(self.content(), key@, 0) is None,
            },
    {
        let mut i: usize = 0;
        while i < self.entries.len()
            invariant
                i <= self.entries@.len(),
                key_from(self.content(), key@, 0) == key_from(self.content(), key@, i as int),
            decreases self.entries@.len() - i,
        {
            assert(self.content()[i as int].0 == self.entries@[i as int].key@);
            if same_key(&self.entries[i].key, key) {
                return Some(i);
            }
            i += 1;
        }
        None
    }

    /// Looks a preview up; a found one counts as just used.
    pub fn get(&mut self, key: &PreviewCacheKey) -> (found: Option<PreviewImage>)
        ensures
            final(self).sound(),
            final(self).limit() == old(self).limit(),
            final(self).content() == after_get(old(self).content(), key@),
            match found {
                Some(image) => {
                    &&& key_from(old(self).content(), key@, 0) matches Some(at)
                    &&& image@ == old(self).content()[at].1
                },
                None => key_from(old(self).content(), key@, 0) is None,
            },
    {
        proof {
            use_type_invariant(&*self);
        }
        let ghost before = self.content();
        match self.position(key) {
            None => None,
            Some(at) => {
                proof {
                    lemma_key_from(before, key@, 0);
                }
                let mut entries: Vec<CacheEntry> = Vec::new();
                std::mem::swap(&mut entries, &mut self.entries);
                let entry = entries.remove(at);
                let image = entry.image.clone();
                assert(before[at as int] == (entry.key@, entry.image@));
                entries.push(entry);
                proof {
                    assert(content_of(entries@) =~= touched(before, at as int));
                    lemma_touched(before, at as int, before[at as int]);
                }
                self.entries = entries;
                Some(image)
            },
        }
    }

    /// Keeps a preview; it counts as just used.
    pub fn insert(&mut self, key: PreviewCacheKey, image: PreviewImage)
        ensures
            final(self).sound(),
            final(self).limit() == old(self).limit(),
            final(self).content() == after_insert(
                old(self).content(),
                old(self).limit(),
                key@,
                image@,
            ),
    {
        proof {
            use_type_invariant(&*self);
        }
        let ghost before = self.content();
        if self.capacity == 0 {
            return;
        }
        match self.position(&key) {
            Some(at) => {
                proof {
                    lemma_key_from(before, key@, 0);
                }
                let mut entries: Vec<CacheEntry> = Vec::new();
                std::mem::swap(&mut entries, &mut self.entries);
                let _ = entries.remove(at);
                let entry = CacheEntry { key, image };
                entries.push(entry);
                proof {
                    assert(content_of(entries@) =~= before.remove(at as int).push((key@, image@)));
                    lemma_touched(before, at as int, (key@, image@));
                }
                self.entries = entries;
            },
            None => {
                proof {
                    lemma_key_from(before, key@, 0);
                }
                let mut entries: Vec<CacheEntry> = Vec::new();
                std::mem::swap(&mut entries, &mut self.entries);
                if entries.len() >= self.capacity {
                    let _ = entries.remove(0);
                    assert(content_of(entries@) =~= before.skip(1));
                }
                let ghost kept = content_of(entries@);
                let entry = CacheEntry { key, image };
                entries.push(entry);
                assert(content_of(entries@) =~= kept.push((key@, image@)));
                self.entries = entries;
            },
        }
    }
}

/// Moving an entry to the end, or replacing its preview, keeps the keys apart.
proof fn lemma_touched(
    entries: Seq<(KeyModel, ImageModel)>,
    at: int,
    entry: (KeyModel, ImageModel),
)
    requires
        keys_differ(entries),
        0 <= at < entries.len(),
        entry.0 == entries[at].0,
    ensures
        keys_differ(entries.remove(at).push(entry)),
        entries.remove(at).push(entry).len() == entries.len(),
{
    let result = entries.remove(at).push(entry);
    assert forall|i: int, j: int| 0 <= i < j < result.len() implies #[trigger] result[i].0
        != #[trigger] result[j].0 by {
        let a = if i < at {
            i
        } else {
            i + 1
        };
        assert(result[i] == entries[a]);
        if j < result.len() - 1 {
            let b = if j < at {
                j
            } else {
                j + 1
            };
            assert(result[j] == entries[b]);
        }
    }
}

/// A preview that was just kept is found, whatever else the cache holds, unless
/// the cache keeps nothing.
pub proof fn law_inserted_is_found(
    entries: Seq<(KeyModel, ImageModel)>,
    capacity: nat,
    key: KeyModel,
    image: ImageModel,
)
    requires
        keys_differ(entries),
        entries.len() <= capacity,
        capacity > 0,
    ensures
        ({
            let after = after_insert(entries, capacity, key, image);
            &&& key_from(after, key, 0) matches Some(at)
            &&& after[at].1 == image
            &&& after.len() <= capacity
            &&& keys_differ(after)
        }),
{
    let after = after_insert(entries, capacity, key, image);
    lemma_key_from(entries, key, 0);
    match key_from(entries, key, 0) {
        Some(at) => lemma_touched(entries, at, (key, image)),
        None => {
            let dropped = if entries.len() >= capacity {
                entries.len() - capacity + 1
            } else {
                0
            };
            assert(after =~= entries.skip(dropped).push((key, image)));
            assert forall|i: int, j: int| 0 <= i < j < after.len() implies #[trigger] after[i].0
                != #[trigger] after[j].0 by {
                assert(after[i] == entries[i + dropped]);
                if j < after.len() - 1 {
                    assert(after[j] == entries[j + dropped]);
                }
            }
        },
    }
    lemma_key_from(after, key, 0);
    let last = after.len() - 1;
    assert(after[last] == (key, image));
    assert(after[last].0 == key);
    if let Some(at) = key_from(after, key, 0) {
        if at != last {
            assert(after[at].0 != after[last].0);
        }
    }
}

/// A look-up neither loses nor changes an entry.
pub proof fn law_get_keeps_entries(entries: Seq<(KeyModel, ImageModel)>, key: KeyModel)
    requires
        keys_differ(entries),
    ensures
        after_get(entries, key).to_multiset() == entries.to_multiset(),
        keys_differ(after_get(entries, key)),
{
    lemma_key_from(entries, key, 0);
    if let Some(at) = key_from(entries, key, 0) {
        lemma_touched(entries, at, entries[at]);
        entries.to_multiset_ensures();
        entries.remove(at).to_multiset_ensures();
        assert(entries.to_multiset().contains(entries[at]));
        assert(after_get(entries, key).to_multiset() =~= entries.to_multiset());
    }
}

/// When a full cache takes a new key, only the entry that was not used for the
/// longest time leaves.
pub proof fn law_oldest_leaves(
    entries: Seq<(KeyModel, ImageModel)>,
    capacity: nat,
    key: KeyModel,
    image: ImageModel,
)
    requires
        entries.len() == capacity,
        capacity > 0,
        key_from(entries, key, 0) is None,
    ensures
        after_insert(entries, capacity, key, image) == entries.drop_first().push((key, image)),
{
    assert(entries.skip(1) =~= entries.drop_first());
}

/// The cache keeps what is used last at its end. Using an entry moves it there and leaves
/// the others in their order; a new entry is put there, in place of an older one of its
/// key; and only a full cache loses entries, from its front.
pub proof fn law_last_used_is_last(
    entries: Seq<(KeyModel, ImageModel)>,
    capacity: nat,
    key: KeyModel,
    image: ImageModel,
    i: int,
)
    requires
        capacity > 0,
        entries.len() <= capacity,
        0 <= i <= entries.len(),
        forall|j: int| 0 <= j < i ==> (#[trigger] entries[j]).0 != key,
        i < entries.len() ==> entries[i].0 == key,
    ensures
        i < entries.len() ==> {
            let others = entries.take(i) + entries.skip(i + 1);
            &&& after_get(entries, key) == others.push(entries[i])
            &&& after_insert(entries, capacity, key, image) == others.push((key, image))
        },
        i == entries.len() ==> {
            &&& after_get(entries, key) == entries
            &&& entries.len() < capacity ==> after_insert(entries, capacity, key, image)
                == entries.push((key, image))
            &&& entries.len() == capacity ==> after_insert(entries, capacity, key, image)
                == entries.skip(1).push((key, image))
        },
        after_insert(entries, 0, key, image) == entries,
{
    lemma_key_first(entries, key, i, 0);
    if i < entries.len() {
        assert(entries.remove(i) =~= entries.take(i) + entries.skip(i + 1));
    }
}

proof fn lemma_key_first(entries: Seq<(KeyModel, ImageModel)>, key: KeyModel, i: int, from: int)
    requires
        0 <= from <= i <= entries.len(),
        forall|j: int| from <= j < i ==> (#[trigger] entries[j]).0 != key,
        i < entries.len() ==> entries[i].0 == key,
    ensures
        key_from(entries, key, from) == if i < entries.len() {
            Some(i)
        } else {
            None
        },
    decreases i - from,
{
    if from < i {
        lemma_key_first(entries, key, i, from + 1);
        let entry = entries[from];
    }
}

} // verus!
