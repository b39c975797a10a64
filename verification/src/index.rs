//! The version index of a catalog whose versions come in platform variants:
//! the versions in the order in which they are first seen, each with the
//! sources of its platforms.

use crate::assoc::{
    distinct_keys, extends, keys, lemma_position, lemma_position_extends, lemma_position_is,
    lemma_put_distinct, lemma_put_extends, lemma_put_lookup, lemma_put_position, lookup,
    position, put, Text,
};
use crate::json::found_text;
use crate::types::{record_views, texts, ExtVersion, ExtVersionView};
use indexmap::IndexMap;
use vstd::prelude::*;

verus! {

/// The platforms of one version, each with the source of its package, in the
/// order in which they were first put in. No platform occurs twice.
#[derive(Debug, PartialEq, Eq)]
pub struct PlatformMap {
    entries: Vec<(String, String)>,
}

/// The mathematical value of a [`PlatformMap`]: pairs of platform and source.
pub type PlatformsView = Seq<(Text, Text)>;

/// The pairs of a vector of platforms and sources.
pub open spec fn pairs(entries: Seq<(String, String)>) -> PlatformsView {
    Seq::new(entries.len(), |i: int| (entries[i].0@, entries[i].1@))
}

impl View for PlatformMap {
    type V = PlatformsView;

    closed spec fn view(&self) -> PlatformsView {
        pairs(self.entries@)
    }
}

impl PlatformMap {
    /// No platform occurs twice.
    #[verifier::type_invariant]
    closed spec fn distinct(self) -> bool {
        distinct_keys(pairs(self.entries@))
    }

    /// A map without platforms.
    pub fn new() -> (platforms: PlatformMap)
        ensures
            platforms@ == Seq::<(Text, Text)>::empty(),
    {
        let platforms = PlatformMap { entries: Vec::new() };
        assert(platforms@ =~= Seq::<(Text, Text)>::empty());
        platforms
    }

    /// The number of platforms.
    pub fn len(&self) -> (n: usize)
        ensures
            n == self@.len(),
    {
        self.entries.len()
    }

    /// The place of `platform` among the pairs.
    fn find(&self, platform: &String) -> (place: Option<usize>)
        ensures
            match place {
                Some(i) => i < self@.len() && position(self@, platform@) == Some(i as int),
                None => position(self@, platform@).is_none(),
            },
    {
        let mut i: usize = 0;
        while i < self.entries.len()
            invariant
                i <= self.entries@.len(),
                forall|j: int| 0 <= j < i ==> (#[trigger] self@[j]).0 != platform@,
            decreases self.entries@.len() - i,
        {
            if self.entries[i].0 == *platform {
                proof {
                    lemma_position_is(self@, platform@, i as int);
                }
                return Some(i);
            }
            i += 1;
        }
        proof {
            lemma_position(self@, platform@);
        }
        None
    }

    /// Puts `source` under `platform`: in the place of the source that the
    /// platform had, or as the last platform.
    pub fn insert(&mut self, platform: String, source: String)
        ensures
            final(self)@ == put(old(self)@, platform@, source@),
    {
        let ghost before = self@;
        proof {
            use_type_invariant(&*self);
            lemma_put_distinct(before, platform@, source@);
            lemma_position(before, platform@);
        }
        let found = self.find(&platform);
        let mut entries: Vec<(String, String)> = Vec::new();
        assert(pairs(entries@) =~= Seq::<(Text, Text)>::empty());
        core::mem::swap(&mut self.entries, &mut entries);
        match found {
            Some(i) => {
                entries.set(i, (platform, source));
            },
            None => {
                entries.push((platform, source));
            },
        }
        assert(pairs(entries@) =~= put(before, platform@, source@));
        core::mem::swap(&mut self.entries, &mut entries);
    }

    /// The source under `platform`.
    pub fn get(&self, platform: &str) -> (source: Option<&String>)
        ensures
            found_text(source) == lookup(self@, platform@),
    {
        let wanted = platform.to_owned();
        match self.find(&wanted) {
            Some(i) => Some(&self.entries[i].1),
            None => None,
        }
    }

    /// The platforms, in order. None occurs twice.
    pub fn keys(&self) -> (platforms: Vec<String>)
        ensures
            texts(platforms@) == keys(self@),
            distinct_keys(self@),
    {
        proof {
            use_type_invariant(self);
        }
        let mut platforms: Vec<String> = Vec::new();
        let mut i: usize = 0;
        while i < self.entries.len()
            invariant
                i <= self.entries@.len(),
                platforms@.len() == i,
                forall|j: int| 0 <= j < i ==> (#[trigger] platforms@[j])@ == self@[j].0,
            decreases self.entries@.len() - i,
        {
            platforms.push(self.entries[i].0.clone());
            i += 1;
        }
        assert(texts(platforms@) =~= keys(self@));
        platforms
    }
}

/// `indexmap::IndexMap`, as a type that is never looked into: what a map
/// holds is told by [`index_view`].
#[verifier::external_type_specification]
#[verifier::external_body]
#[verifier::reject_recursive_types(K)]
#[verifier::reject_recursive_types(V)]
#[verifier::reject_recursive_types(S)]
pub struct ExIndexMap<K, V, S>(IndexMap<K, V, S>);

/// The version index: from a version to its platforms, the versions in the
/// order in which they were first put in.
pub type VersionMap = IndexMap<String, PlatformMap>;

/// The mathematical value of a [`VersionMap`], given by [`index_view`]: pairs
/// of a version and its platforms.
pub type IndexView = Seq<(Text, PlatformsView)>;

/// What an `IndexMap` from versions to platforms holds: its pairs in the
/// map's order, each a key's text and the value of its [`PlatformMap`].
pub uninterp spec fn index_view(m: IndexMap<String, PlatformMap>) -> Seq<
    (Text, Seq<(Text, Text)>),
>;

/// `IndexMap::new`: a map that holds nothing.
#[verifier::external_body]
pub(crate) fn index_new() -> (m: VersionMap)
    ensures
        index_view(m) == Seq::<(Text, PlatformsView)>::empty(),
{
    IndexMap::new()
}

/// `IndexMap::get`: the value of the pair whose key has the text of `key`.
/// The map holds no key twice, so the pair is also the first with that text.
#[verifier::external_body]
pub(crate) fn index_get<'a>(m: &'a VersionMap, key: &str) -> (value: Option<&'a PlatformMap>)
    ensures
        match value {
            Some(platforms) => lookup(index_view(*m), key@) == Some(platforms@),
            None => lookup(index_view(*m), key@).is_none(),
        },
{
    m.get(key)
}

/// `IndexMap::entry` followed by `Entry::or_insert_with`: the value under
/// `key`, to be changed in place. Where the map has the key, the pair keeps
/// its place; where it has not, a pair of the key and an empty
/// [`PlatformMap`] becomes the last one. No other pair changes.
#[verifier::external_body]
pub(crate) fn index_slot<'a>(m: &'a mut VersionMap, key: String) -> (slot: &'a mut PlatformMap)
    ensures
        match lookup(index_view(*old(m)), key@) {
            Some(platforms) => slot@ == platforms,
            None => slot@ == Seq::<(Text, Text)>::empty(),
        },
        index_view(*final(m)) == put(index_view(*old(m)), key@, final(slot)@),
{
    m.entry(key).or_insert_with(PlatformMap::new)
}

/// `IndexMap::keys`: the keys in the map's order, each cloned.
#[verifier::external_body]
pub(crate) fn index_keys(m: &VersionMap) -> (versions: Vec<String>)
    ensures
        texts(versions@) == keys(index_view(*m)),
{
    m.keys().cloned().collect()
}

/// `index` with `source` under `platform` of `version`. A version that the
/// index does not have becomes its last one; a platform that the version does
/// not have becomes the version's last one.
pub open spec fn index_put(
    index: IndexView,
    version: Text,
    platform: Text,
    source: Text,
) -> IndexView {
    let platforms = match lookup(index, version) {
        Some(platforms) => platforms,
        None => Seq::empty(),
    };
    put(index, version, put(platforms, platform, source))
}

/// The index of a sequence of records: each record that has a platform is
/// put in, in the records' order. A record without a platform is left out.
pub open spec fn grouped_index(records: Seq<ExtVersionView>) -> IndexView
    decreases records.len(),
{
    if records.len() == 0 {
        Seq::empty()
    } else {
        let before = grouped_index(records.drop_last());
        let record = records.last();
        match record.target_platform {
            Some(platform) => index_put(before, record.version, platform, record.file_source),
            None => before,
        }
    }
}

/// Groups the records of a catalog by version, then by platform.
pub fn group_by_version(ext_versions: Vec<ExtVersion>) -> (grouped: VersionMap)
    ensures
        index_view(grouped) == grouped_index(record_views(ext_versions@)),
        index_distinct(index_view(grouped)),
{
    let mut grouped = index_new();
    let ghost records = record_views(ext_versions@);
    let mut i: usize = 0;
    assert(records.take(0) =~= Seq::empty());
    while i < ext_versions.len()
        invariant
            i <= ext_versions@.len(),
            records == record_views(ext_versions@),
            index_view(grouped) == grouped_index(records.take(i as int)),
        decreases ext_versions@.len() - i,
    {
        let ghost upto = records.take(i as int + 1);
        assert(upto.drop_last() =~= records.take(i as int));
        assert(upto.last() == ext_versions@[i as int]@);
        let item = &ext_versions[i];
        match &item.target_platform {
            Some(platform) => {
                let slot = index_slot(&mut grouped, item.version.clone());
                slot.insert(platform.clone(), item.file_source.clone());
            },
            None => {},
        }
        i += 1;
    }
    assert(records.take(i as int) =~= records);
    proof {
        lemma_grouped_distinct(records);
    }
    grouped
}

/// The source that the index holds under a version and a platform.
pub open spec fn indexed_source(index: IndexView, version: Text, platform: Text) -> Option<Text> {
    match lookup(index, version) {
        Some(platforms) => lookup(platforms, platform),
        None => None,
    }
}

/// No version occurs twice in the index, and no platform twice in a version.
pub open spec fn index_distinct(index: IndexView) -> bool {
    &&& distinct_keys(index)
    &&& forall|i: int| 0 <= i < index.len() ==> distinct_keys((#[trigger] index[i]).1)
}

/// The record has a platform and is the first of the records that has one
/// under its version.
pub open spec fn first_of_version(records: Seq<ExtVersionView>, i: int) -> bool {
    &&& 0 <= i < records.len()
    &&& records[i].target_platform is Some
    &&& forall|k: int|
        0 <= k < i && (#[trigger] records[k]).target_platform is Some ==> records[k].version
            != records[i].version
}

/// Putting a source into an index keeps versions and platforms distinct.
pub proof fn lemma_index_put_distinct(index: IndexView, version: Text, platform: Text, source: Text)
    requires
        index_distinct(index),
    ensures
        index_distinct(index_put(index, version, platform, source)),
{
    let platforms = match lookup(index, version) {
        Some(platforms) => platforms,
        None => Seq::empty(),
    };
    let filled = put(platforms, platform, source);
    let after = put(index, version, filled);
    lemma_position(index, version);
    lemma_put_distinct(platforms, platform, source);
    lemma_put_distinct(index, version, filled);
    assert forall|i: int| 0 <= i < after.len() implies distinct_keys((#[trigger] after[i]).1) by {
        if after[i].1 != filled {
            assert(after[i] == index[i]);
        }
    }
}

/// What an index holds after a source was put in: that source under the
/// version and platform it was put under, and under every other pair of
/// version and platform what the index held before.
pub proof fn lemma_index_put_source(
    index: IndexView,
    version: Text,
    platform: Text,
    source: Text,
    other_version: Text,
    other_platform: Text,
)
    ensures
        indexed_source(index_put(index, version, platform, source), other_version, other_platform)
            == (if other_version == version && other_platform == platform {
            Some(source)
        } else {
            indexed_source(index, other_version, other_platform)
        }),
{
    let platforms = match lookup(index, version) {
        Some(platforms) => platforms,
        None => Seq::empty(),
    };
    let filled = put(platforms, platform, source);
    lemma_put_lookup(index, version, filled, other_version);
    lemma_put_lookup(platforms, platform, source, other_platform);
}

/// In the index of a sequence of records no version occurs twice, and no
/// platform twice in a version.
pub proof fn lemma_grouped_distinct(records: Seq<ExtVersionView>)
    ensures
        index_distinct(grouped_index(records)),
    decreases records.len(),
{
    if records.len() > 0 {
        lemma_grouped_distinct(records.drop_last());
        let record = records.last();
        if let Some(platform) = record.target_platform {
            lemma_index_put_distinct(
                grouped_index(records.drop_last()),
                record.version,
                platform,
                record.file_source,
            );
        }
    }
}

/// The index of the records extends the index of their first `m`: the
/// versions that were there stay where they are.
pub proof fn lemma_grouped_extends(records: Seq<ExtVersionView>, m: int)
    requires
        0 <= m <= records.len(),
    ensures
        extends(grouped_index(records), grouped_index(records.take(m))),
    decreases records.len(),
{
    if m == records.len() {
        assert(records.take(m) =~= records);
    } else {
        let shorter = records.drop_last();
        assert(shorter.take(m) =~= records.take(m));
        lemma_grouped_extends(shorter, m);
        let record = records.last();
        if let Some(platform) = record.target_platform {
            let before = grouped_index(shorter);
            let platforms = match lookup(before, record.version) {
                Some(platforms) => platforms,
                None => Seq::empty(),
            };
            lemma_put_extends(before, record.version, put(platforms, platform, record.file_source));
        }
    }
}

/// The version of a record that has a platform is in the index.
pub proof fn lemma_grouped_has_version(records: Seq<ExtVersionView>, i: int)
    requires
        0 <= i < records.len(),
        records[i].target_platform is Some,
    ensures
        position(grouped_index(records), records[i].version) is Some,
{
    let upto = records.take(i + 1);
    let before = grouped_index(upto.drop_last());
    let record = records[i];
    assert(upto.last() == record);
    let platforms = match lookup(before, record.version) {
        Some(platforms) => platforms,
        None => Seq::empty(),
    };
    lemma_put_position(
        before,
        record.version,
        put(platforms, record.target_platform->0, record.file_source),
        record.version,
    );
    lemma_grouped_extends(records, i + 1);
    lemma_position_extends(grouped_index(records), grouped_index(upto), record.version);
}

/// A version of the index is the version of a record that has a platform.
pub proof fn lemma_grouped_version_origin(records: Seq<ExtVersionView>, version: Text) -> (i: int)
    requires
        position(grouped_index(records), version) is Some,
    ensures
        0 <= i < records.len(),
        records[i].target_platform is Some,
        records[i].version == version,
    decreases records.len(),
{
    if records.len() == 0 {
        0
    } else {
        let shorter = records.drop_last();
        let before = grouped_index(shorter);
        let record = records.last();
        match record.target_platform {
            Some(platform) => {
                if record.version == version {
                    records.len() - 1
                } else {
                    let platforms = match lookup(before, record.version) {
                        Some(platforms) => platforms,
                        None => Seq::empty(),
                    };
                    lemma_put_position(
                        before,
                        record.version,
                        put(platforms, platform, record.file_source),
                        version,
                    );
                    lemma_grouped_version_origin(shorter, version)
                }
            },
            None => lemma_grouped_version_origin(shorter, version),
        }
    }
}

/// Grouping keeps the order in which the versions are first seen: of two
/// records, each the first with a platform under its version, the earlier
/// one's version comes earlier in the index.
pub proof fn lemma_first_seen_order(records: Seq<ExtVersionView>, i: int, j: int)
    requires
        first_of_version(records, i),
        first_of_version(records, j),
        i < j,
    ensures
        position(grouped_index(records), records[i].version) is Some,
        position(grouped_index(records), records[j].version) is Some,
        position(grouped_index(records), records[i].version)->0 < position(
            grouped_index(records),
            records[j].version,
        )->0,
{
    let earlier = records[i].version;
    let later = records[j].version;
    let head = records.take(j);
    let upto = records.take(j + 1);
    let before = grouped_index(head);
    assert(upto.drop_last() =~= head);
    assert(upto.last() == records[j]);
    assert(head[i] == records[i]);
    lemma_grouped_has_version(head, i);
    lemma_position(before, earlier);
    if position(before, later) is Some {
        let k = lemma_grouped_version_origin(head, later);
        assert(head[k] == records[k]);
    }
    let platforms: Seq<(Text, Text)> = Seq::empty();
    let filled = put(platforms, records[j].target_platform->0, records[j].file_source);
    lemma_put_position(before, later, filled, later);
    lemma_put_position(before, later, filled, earlier);
    lemma_grouped_extends(records, j + 1);
    lemma_position_extends(grouped_index(records), grouped_index(upto), earlier);
    lemma_position_extends(grouped_index(records), grouped_index(upto), later);
}

/// The last record under a version and a platform decides: the index holds
/// its source under the two.
pub proof fn lemma_grouped_source(records: Seq<ExtVersionView>, i: int)
    requires
        0 <= i < records.len(),
        records[i].target_platform is Some,
        forall|k: int|
            i < k < records.len() ==> !((#[trigger] records[k]).version == records[i].version
                && records[k].target_platform == records[i].target_platform),
    ensures
        indexed_source(
            grouped_index(records),
            records[i].version,
            records[i].target_platform->0,
        ) == Some(records[i].file_source),
    decreases records.len(),
{
    let shorter = records.drop_last();
    let before = grouped_index(shorter);
    let record = records.last();
    let version = records[i].version;
    let platform = records[i].target_platform->0;
    if i < records.len() - 1 {
        assert forall|k: int| i < k < shorter.len() implies !((#[trigger] shorter[k]).version
            == shorter[i].version && shorter[k].target_platform == shorter[i].target_platform) by {
            assert(shorter[k] == records[k]);
        }
        lemma_grouped_source(shorter, i);
    }
    if let Some(last_platform) = record.target_platform {
        lemma_index_put_source(
            before,
            record.version,
            last_platform,
            record.file_source,
            version,
            platform,
        );
    }
}

} // verus!
