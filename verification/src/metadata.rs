//! The registry of memory segments.

use vstd::prelude::*;

use crate::name_map::NameMap;

verus! {

/// Where a segment can be reached, and how large it is.
#[derive(Debug, PartialEq, Eq)]
pub struct SegmentDesc {
    pub name: String,
    pub host: String,
    pub port: u16,
    pub size: usize,
}

/// What a [`SegmentDesc`] says.
pub struct SegmentView {
    pub name: Seq<char>,
    pub host: Seq<char>,
    pub port: u16,
    pub size: nat,
}

impl View for SegmentDesc {
    type V = SegmentView;

    open spec fn view(&self) -> SegmentView {
        SegmentView {
            name: self.name@,
            host: self.host@,
            port: self.port,
            size: self.size as nat,
        }
    }
}

impl Clone for SegmentDesc {
    fn clone(&self) -> (copy: Self)
        ensures
            copy@ == self@,
    {
        SegmentDesc {
            name: self.name.clone(),
            host: self.host.clone(),
            port: self.port,
            size: self.size,
        }
    }
}

impl SegmentDesc {
    /// The view keeps every field.
    pub proof fn law_view_tells_all(self)
        ensures
            self@.name == self.name@,
            self@.host == self.host@,
            self@.port == self.port,
            self@.size == self.size,
    {
    }
}

/// The segments that are known, by name.
pub struct MetadataStore {
    segments: NameMap<SegmentDesc>,
}

impl View for MetadataStore {
    type V = Map<Seq<char>, SegmentView>;

    closed spec fn view(&self) -> Map<Seq<char>, SegmentView> {
        self.segments@.map_values(|desc: SegmentDesc| desc@)
    }
}

impl Default for MetadataStore {
    fn default() -> (store: Self)
        ensures
            store.wf(),
            store@ == Map::<Seq<char>, SegmentView>::empty(),
    {
        MetadataStore::new()
    }
}

impl MetadataStore {
    /// Every segment is registered under its own name.
    pub closed spec fn wf(self) -> bool {
        &&& self.segments.wf()
        &&& forall|name: Seq<char>| #[trigger]
            self.segments@.contains_key(name) ==> self.segments@[name].name@ == name
    }

    /// Every segment that can be looked up carries the name it is found by.
    pub proof fn law_segments_carry_their_names(self, name: Seq<char>)
        requires
            self.wf(),
            self@.contains_key(name),
        ensures
            self@[name].name == name,
    {
        assert(self.segments@.contains_key(name));
    }

    /// A registry without segments.
    pub fn new() -> (store: Self)
        ensures
            store.wf(),
            store@ == Map::<Seq<char>, SegmentView>::empty(),
    {
        let store = MetadataStore { segments: NameMap::new() };
        assert(store@ =~= Map::<Seq<char>, SegmentView>::empty());
        store
    }

    /// Registers a segment, in place of an earlier one of the same name.
    pub fn register_segment(&mut self, desc: SegmentDesc)
        requires
            old(self).wf(),
        ensures
            final(self).wf(),
            final(self)@ == old(self)@.insert(desc.name@, desc@),
    {
        self.segments.insert(desc.name.clone(), desc);
        assert(self@ =~= old(self)@.insert(desc.name@, desc@));
    }

    /// The segment of this name.
    pub fn get_segment(&self, name: &str) -> (desc: Option<SegmentDesc>)
        requires
            self.wf(),
        ensures
            match desc {
                Some(desc) => self@.contains_key(name@) && desc@ == self@[name@],
                None => !self@.contains_key(name@),
            },
    {
        match self.segments.value_of(name) {
            Some(desc) => Some(desc.clone()),
            None => None,
        }
    }

    /// A copy of all the segments, by name.
    pub fn all_segments(&self) -> (all: NameMap<SegmentDesc>)
        requires
            self.wf(),
        ensures
            all.wf(),
            all@.map_values(|desc: SegmentDesc| desc@) == self@,
    {
        let mut all: NameMap<SegmentDesc> = NameMap::new();
        let count = self.segments.len();
        let ghost names = self.segments.names();
        for i in 0..count
            invariant
                self.wf(),
                all.wf(),
                names == self.segments.names(),
                count == names.len(),
                forall|j: int| 0 <= j < i ==> all@.contains_key(#[trigger] names[j]),
                forall|name: Seq<char>| #[trigger]
                    all@.contains_key(name) ==> self@.contains_key(name) && all@[name]@
                        == self@[name],
        {
            let desc = self.segments.value_at(i);
            all.insert(self.segments.name_at(i).clone(), desc.clone());
        }
        proof {
            self.segments.lemma_names();
        }
        assert(all@.map_values(|desc: SegmentDesc| desc@) =~= self@) by {
            assert forall|name: Seq<char>| #[trigger]
                self@.contains_key(name) implies all@.contains_key(name) by {
                assert(self.segments@.contains_key(name));
                assert(names.contains(name));
            }
        }
        all
    }
}

/// A segment that was registered is the one that is found under its name,
/// and registering it changes what is found under no other name.
pub proof fn law_lookup_finds_last_registration(
    before: Map<Seq<char>, SegmentView>,
    desc: SegmentView,
    other: Seq<char>,
)
    ensures
        before.insert(desc.name, desc).contains_key(desc.name),
        before.insert(desc.name, desc)[desc.name] == desc,
        other != desc.name ==> (before.insert(desc.name, desc).contains_key(other)
            <==> before.contains_key(other)) && (before.contains_key(other) ==> before.insert(
            desc.name,
            desc,
        )[other] == before[other]),
{
}

} // verus!
