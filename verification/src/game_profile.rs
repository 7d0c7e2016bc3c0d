//! The server's view of a player: UUID, name and signed properties.

use vstd::prelude::*;

verus! {

/// The value of a profile property, and the signature over it where the
/// server signed it.
#[derive(Debug, Clone, PartialEq, Eq)]
pub struct ProfilePropertyValue {
    pub value: String,
    pub signature: Option<String>,
}

/// The mathematical value of a `ProfilePropertyValue`.
pub struct PropertyValueView {
    pub value: Seq<char>,
    pub signature: Option<Seq<char>>,
}

/// The characters of an optional string.
pub open spec fn option_text(s: Option<String>) -> Option<Seq<char>> {
    match s {
        Some(t) => Some(t@),
        None => None,
    }
}

impl View for ProfilePropertyValue {
    type V = PropertyValueView;

    open spec fn view(&self) -> PropertyValueView {
        PropertyValueView { value: self.value@, signature: option_text(self.signature) }
    }
}

/// A profile property as it is listed in the profile's serial form.
#[derive(Debug, Clone, PartialEq, Eq)]
pub struct SerializableProfilePropertyValue {
    pub name: String,
    pub value: String,
    pub signature: Option<String>,
}

/// The mathematical value of a listed property: its name and its value.
pub type PropertyEntry = (Seq<char>, PropertyValueView);

impl View for SerializableProfilePropertyValue {
    type V = PropertyEntry;

    open spec fn view(&self) -> PropertyEntry {
        (self.name@, PropertyValueView { value: self.value@, signature: option_text(self.signature) })
    }
}

/// The place of the entry named `name` among `entries`, or the length of
/// `entries` where there is none.
pub open spec fn index_of_name(entries: Seq<PropertyEntry>, name: Seq<char>) -> int
    decreases entries.len(),
{
    if entries.len() == 0 {
        0
    } else if entries[0].0 == name {
        0
    } else {
        1 + index_of_name(entries.skip(1), name)
    }
}

/// Whether no two entries have the same name.
pub open spec fn distinct_names(entries: Seq<PropertyEntry>) -> bool {
    forall|i: int, j: int|
        0 <= i < j < entries.len() ==> (#[trigger] entries[i]).0 != (#[trigger] entries[j]).0
}

/// The entries after `name` was set to `value`: in the place of the entry
/// of that name, or at the end where there was none.
pub open spec fn with_entry(entries: Seq<PropertyEntry>, name: Seq<char>, value: PropertyValueView) -> Seq<
    PropertyEntry,
> {
    let i = index_of_name(entries, name);
    if i < entries.len() {
        entries.update(i, (name, value))
    } else {
        entries.push((name, value))
    }
}

/// The entries that setting each listed property in turn gives, starting
/// from `entries`.
pub open spec fn with_entries(entries: Seq<PropertyEntry>, listed: Seq<PropertyEntry>) -> Seq<
    PropertyEntry,
>
    decreases listed.len(),
{
    if listed.len() == 0 {
        entries
    } else {
        with_entries(with_entry(entries, listed[0].0, listed[0].1), listed.skip(1))
    }
}

/// The mapping that the entries spell.
pub open spec fn entries_map(entries: Seq<PropertyEntry>) -> Map<Seq<char>, PropertyValueView> {
    Map::new(
        |name: Seq<char>| index_of_name(entries, name) < entries.len(),
        |name: Seq<char>| entries[index_of_name(entries, name)].1,
    )
}

/// The index found is inside the entries exactly where an entry has the
/// name, and then it is the first such.
pub proof fn lemma_index_of_name(entries: Seq<PropertyEntry>, name: Seq<char>)
    ensures
        0 <= index_of_name(entries, name) <= entries.len(),
        index_of_name(entries, name) < entries.len() ==> entries[index_of_name(entries, name)].0
            == name,
        forall|i: int|
            0 <= i < index_of_name(entries, name) ==> (#[trigger] entries[i]).0 != name,
    decreases entries.len(),
{
    if entries.len() > 0 && entries[0].0 != name {
        lemma_index_of_name(entries.skip(1), name);
        assert forall|i: int| 0 <= i < index_of_name(entries, name) implies (
        #[trigger] entries[i]).0 != name by {
            if i > 0 {
                assert(entries.skip(1)[i - 1] == entries[i]);
            }
        }
    }
}

/// Setting a name keeps the names distinct, and changes the mapping at
/// that name only.
pub proof fn lemma_with_entry(entries: Seq<PropertyEntry>, name: Seq<char>, value: PropertyValueView)
    requires
        distinct_names(entries),
    ensures
        distinct_names(with_entry(entries, name, value)),
        entries_map(with_entry(entries, name, value)) == entries_map(entries).insert(name, value),
{
    let after = with_entry(entries, name, value);
    let i = index_of_name(entries, name);
    lemma_index_of_name(entries, name);
    assert forall|a: int, b: int| 0 <= a < b < after.len() implies (#[trigger] after[a]).0 != (
    #[trigger] after[b]).0 by {
        if i < entries.len() {
            assert(after[a].0 == entries[a].0 && after[b].0 == entries[b].0);
        } else {
            if b < entries.len() {
                assert(after[a] == entries[a] && after[b] == entries[b]);
            } else {
                assert(after[a] == entries[a]);
            }
        }
    }
    assert forall|k: Seq<char>|
        (index_of_name(after, k) < after.len()) == (k == name || index_of_name(entries, k)
            < entries.len()) && (index_of_name(after, k) < after.len() ==> after[index_of_name(
            after,
            k,
        )].1 == if k == name {
            value
        } else {
            entries[index_of_name(entries, k)].1
        }) by {
        lemma_index_of_name(entries, k);
        lemma_index_of_name(after, k);
        let ia = index_of_name(after, k);
        let ie = index_of_name(entries, k);
        if i < entries.len() {
            assert(after.len() == entries.len());
            if ie < entries.len() {
                assert(after[ie].0 == k);
                if ia < ie {
                    assert(after[ia].0 == entries[ia].0);
                }
                if ie < ia {
                }
                assert(ia == ie);
            } else if ia < after.len() {
                assert(after[ia].0 == entries[ia].0);
            }
            if k == name {
                assert(ie == i);
            } else if ie < entries.len() {
                assert(ie != i);
            }
        } else {
            if k == name {
                assert(after[entries.len() as int].0 == name);
                if ia < entries.len() {
                    assert(after[ia] == entries[ia]);
                }
                assert(ia == entries.len());
            } else {
                if ie < entries.len() {
                    assert(after[ie] == entries[ie]);
                    if ia < ie {
                        assert(after[ia] == entries[ia]);
                    }
                    assert(ia == ie);
                } else if ia < after.len() {
                    if ia < entries.len() {
                        assert(after[ia] == entries[ia]);
                    }
                }
            }
        }
    }
    assert(entries_map(after) =~= entries_map(entries).insert(name, value));
}

/// One property of a profile: a name and the value under it.
#[derive(Debug, Clone, PartialEq, Eq)]
pub struct ProfileProperty {
    pub name: String,
    pub value: ProfilePropertyValue,
}

impl View for ProfileProperty {
    type V = PropertyEntry;

    open spec fn view(&self) -> PropertyEntry {
        (self.name@, self.value@)
    }
}

/// The values of a list of properties.
pub open spec fn properties_view(list: Seq<ProfileProperty>) -> Seq<PropertyEntry> {
    Seq::new(list.len(), |i: int| list[i]@)
}

/// The values of a list of listed properties.
pub open spec fn listed_view(listed: Seq<SerializableProfilePropertyValue>) -> Seq<PropertyEntry> {
    Seq::new(listed.len(), |i: int| listed[i]@)
}

/// The properties of a profile: a mapping from names to values that keeps
/// the order in which the names came. Two of them are equal where they are
/// the same mapping, whatever the order.
#[derive(Debug, Eq)]
pub struct PropertyMap {
    entries: Vec<ProfileProperty>,
}

/// Whether two optional strings hold the same text.
fn same_text(a: &Option<String>, b: &Option<String>) -> (r: bool)
    ensures
        r == (option_text(*a) == option_text(*b)),
{
    match (a, b) {
        (Some(x), Some(y)) => *x == *y,
        (None, None) => true,
        _ => false,
    }
}

/// Whether two property values are the same.
fn same_value(a: &ProfilePropertyValue, b: &ProfilePropertyValue) -> (r: bool)
    ensures
        r == (a@ == b@),
{
    a.value == b.value && same_text(&a.signature, &b.signature)
}

impl PartialEq for PropertyMap {
    fn eq(&self, other: &Self) -> (r: bool) {
        let forth = self.is_within(other);
        let back = other.is_within(self);
        proof {
            if forth && back {
                assert(self@ =~= other@);
            }
        }
        forth && back
    }
}

impl vstd::std_specs::cmp::PartialEqSpecImpl for PropertyMap {
    open spec fn obeys_eq_spec() -> bool {
        true
    }

    open spec fn eq_spec(&self, other: &Self) -> bool {
        self@ == other@
    }
}

impl View for PropertyMap {
    type V = Map<Seq<char>, PropertyValueView>;

    closed spec fn view(&self) -> Map<Seq<char>, PropertyValueView> {
        entries_map(properties_view(self.entries@))
    }
}

impl PropertyMap {
    #[verifier::type_invariant]
    spec fn names_are_distinct(self) -> bool {
        distinct_names(properties_view(self.entries@))
    }

    /// The entries, in the order in which their names came.
    pub closed spec fn entries(&self) -> Seq<PropertyEntry> {
        properties_view(self.entries@)
    }

    /// The mapping is the one that the entries spell.
    pub proof fn lemma_view(&self)
        ensures
            self@ == entries_map(self.entries()),
    {
    }

    /// The empty mapping.
    pub fn new() -> (r: Self)
        ensures
            r.entries() == Seq::<PropertyEntry>::empty(),
            r@ == Map::<Seq<char>, PropertyValueView>::empty(),
    {
        let r = PropertyMap { entries: Vec::new() };
        proof {
            assert(properties_view(r.entries@) =~= Seq::<PropertyEntry>::empty());
            assert(r@ =~= Map::<Seq<char>, PropertyValueView>::empty());
        }
        r
    }

    /// The number of names.
    pub fn len(&self) -> (n: usize)
        ensures
            n == self.entries().len(),
            distinct_names(self.entries()),
    {
        proof {
            use_type_invariant(self);
        }
        self.entries.len()
    }

    /// The `i`-th property, in the order in which the names came.
    pub fn entry(&self, i: usize) -> (r: Option<&ProfileProperty>)
        ensures
            match r {
                Some(p) => i < self.entries().len() && p@ == self.entries()[i as int],
                None => i >= self.entries().len(),
            },
    {
        if i < self.entries.len() {
            Some(&self.entries[i])
        } else {
            None
        }
    }

    /// The place of the entry named `name`.
    fn position(&self, name: &String) -> (i: usize)
        ensures
            i == index_of_name(self.entries(), name@),
            i <= self.entries().len(),
    {
        let ghost entries = self.entries();
        let mut i: usize = 0;
        proof {
            assert(entries.skip(0) =~= entries);
        }
        while i < self.entries.len()
            invariant
                entries == properties_view(self.entries@),
                i <= self.entries.len(),
                index_of_name(entries, name@) == i + index_of_name(entries.skip(i as int), name@),
            decreases self.entries.len() - i,
        {
            proof {
                assert(entries.skip(i as int)[0] == self.entries@[i as int]@);
                assert(entries.skip(i as int).skip(1) =~= entries.skip(i + 1));
            }
            if self.entries[i].name == *name {
                return i;
            }
            i = i + 1;
        }
        i
    }

    /// Whether every name of this mapping has the same value in `other`.
    fn is_within(&self, other: &PropertyMap) -> (r: bool)
        ensures
            r == self@.submap_of(other@),
    {
        proof {
            use_type_invariant(self);
        }
        let ghost entries = self.entries();
        let mut i: usize = 0;
        while i < self.entries.len()
            invariant
                i <= self.entries.len(),
                entries == properties_view(self.entries@),
                distinct_names(entries),
                forall|j: int|
                    0 <= j < i ==> other@.contains_key((#[trigger] entries[j]).0)
                        && other@[entries[j].0] == entries[j].1,
            decreases self.entries.len() - i,
        {
            let entry = &self.entries[i];
            proof {
                assert(entries[i as int] == entry@);
                lemma_index_of_name(entries, entry.name@);
                assert(index_of_name(entries, entry.name@) == i);
                assert(self@.contains_key(entry.name@) && self@[entry.name@] == entry.value@);
            }
            let same = match other.get(&entry.name) {
                Some(value) => same_value(value, &entry.value),
                None => false,
            };
            if !same {
                return false;
            }
            i = i + 1;
        }
        proof {
            assert forall|name: Seq<char>| self@.dom().contains(name) implies (
            #[trigger] other@.dom().contains(name)) && self@[name] == other@[name] by {
                lemma_index_of_name(entries, name);
                let at = index_of_name(entries, name);
                assert(entries[at].0 == name);
            }
        }
        true
    }

    /// The value under `name`, if there is one.
    pub fn get(&self, name: &String) -> (r: Option<&ProfilePropertyValue>)
        ensures
            match r {
                Some(v) => self@.contains_key(name@) && v@ == self@[name@],
                None => !self@.contains_key(name@),
            },
    {
        let i = self.position(name);
        if i < self.entries.len() {
            Some(&self.entries[i].value)
        } else {
            None
        }
    }

    /// Sets the value under `name`. A name that is new goes to the end of
    /// the order; one that is there keeps its place.
    pub fn insert(&mut self, name: String, value: ProfilePropertyValue)
        ensures
            final(self).entries() == with_entry(old(self).entries(), name@, value@),
            final(self)@ == old(self)@.insert(name@, value@),
            distinct_names(final(self).entries()),
    {
        proof {
            use_type_invariant(&*self);
            lemma_with_entry(self.entries(), name@, value@);
            lemma_index_of_name(self.entries(), name@);
        }
        let i = self.position(&name);
        let ghost before = self.entries();
        let mut taken = PropertyMap::new();
        std::mem::swap(self, &mut taken);
        let PropertyMap { mut entries } = taken;
        if i < entries.len() {
            entries[i].value = value;
            proof {
                assert(properties_view(entries@) =~= with_entry(before, name@, value@));
            }
        } else {
            entries.push(ProfileProperty { name, value });
            proof {
                assert(properties_view(entries@) =~= with_entry(before, name@, value@));
            }
        }
        *self = PropertyMap { entries };
    }
}

/// The server's view of a player.
#[derive(Debug, Clone, PartialEq, Eq)]
pub struct GameProfile {
    /// The UUID of the player.
    pub uuid: u128,
    /// The username of the player.
    pub name: String,
    /// The properties, shared so that a copy of the profile is cheap.
    pub properties: std::sync::Arc<PropertyMap>,
}

/// The mathematical value of a `GameProfile`; the properties are listed in
/// the order in which their names came.
pub struct GameProfileView {
    pub uuid: u128,
    pub name: Seq<char>,
    pub properties: Seq<PropertyEntry>,
}

impl View for GameProfile {
    type V = GameProfileView;

    open spec fn view(&self) -> GameProfileView {
        GameProfileView { uuid: self.uuid, name: self.name@, properties: self.properties.entries() }
    }
}

impl GameProfile {
    /// A profile without properties.
    pub fn new(uuid: u128, name: String) -> (r: Self)
        ensures
            r@ == (GameProfileView { uuid, name: name@, properties: Seq::empty() }),
    {
        GameProfile { uuid, name, properties: std::sync::Arc::new(PropertyMap::new()) }
    }
}

/// The serial form of a profile: the properties are a list.
#[derive(Debug, Clone, PartialEq, Eq)]
pub struct SerializableGameProfile {
    pub id: u128,
    pub name: String,
    pub properties: Vec<SerializableProfilePropertyValue>,
}

impl View for SerializableGameProfile {
    type V = GameProfileView;

    open spec fn view(&self) -> GameProfileView {
        GameProfileView {
            uuid: self.id,
            name: self.name@,
            properties: listed_view(self.properties@),
        }
    }
}

impl vstd::std_specs::convert::FromSpecImpl<SerializableGameProfile> for GameProfile {
    open spec fn obeys_from_spec() -> bool {
        false
    }

    open spec fn from_spec(v: SerializableGameProfile) -> Self {
        arbitrary()
    }
}

impl From<SerializableGameProfile> for GameProfile {
    /// The profile that the serial form describes. Where a name is listed
    /// more than once, the last value listed for it stands, in the place of
    /// the first.
    fn from(value: SerializableGameProfile) -> (r: Self)
        ensures
            r@.uuid == value@.uuid,
            r@.name == value@.name,
            r@.properties == with_entries(Seq::empty(), value@.properties),
            distinct_names(r@.properties),
    {
        let SerializableGameProfile { id, name, properties: listed } = value;
        let ghost all = listed_view(listed@);
        let mut properties = PropertyMap::new();
        let mut listed = listed;
        let mut done: Ghost<int> = Ghost(0);
        proof {
            assert(all.skip(0) =~= all);
        }
        let mut rest: Vec<SerializableProfilePropertyValue> = Vec::new();
        // The list is taken from its end, so it is turned round first.
        while listed.len() > 0
            invariant
                listed_view(listed@) + listed_view(rest@).reverse() == all,
            decreases listed.len(),
        {
            let ghost before_listed = listed_view(listed@);
            let ghost before_rest = listed_view(rest@);
            let item = listed.pop().unwrap();
            rest.push(item);
            proof {
                assert(listed_view(listed@) =~= before_listed.drop_last());
                assert(listed_view(rest@) =~= before_rest.push(item@));
                assert(listed_view(listed@) + listed_view(rest@).reverse() =~= before_listed
                    + before_rest.reverse());
            }
        }
        proof {
            assert(listed_view(rest@).reverse() =~= all);
        }
        while rest.len() > 0
            invariant
                0 <= done@ <= all.len(),
                done@ + rest.len() == all.len(),
                listed_view(rest@).reverse() == all.skip(done@),
                with_entries(properties.entries(), all.skip(done@)) == with_entries(
                    Seq::empty(),
                    all,
                ),
                distinct_names(properties.entries()),
            decreases rest.len(),
        {
            let ghost before_rest = listed_view(rest@);
            let item = rest.pop().unwrap();
            proof {
                assert(listed_view(rest@) =~= before_rest.drop_last());
                assert(before_rest.reverse()[0] == item@);
                assert(all.skip(done@)[0] == item@);
                assert(listed_view(rest@).reverse() =~= all.skip(done@).skip(1));
                assert(all.skip(done@).skip(1) =~= all.skip(done@ + 1));
            }
            let SerializableProfilePropertyValue { name: key, value: text, signature } = item;
            properties.insert(key, ProfilePropertyValue { value: text, signature });
            proof {
                done@ = done@ + 1;
            }
        }
        GameProfile { uuid: id, name, properties: std::sync::Arc::new(properties) }
    }
}

impl vstd::std_specs::convert::FromSpecImpl<GameProfile> for SerializableGameProfile {
    open spec fn obeys_from_spec() -> bool {
        false
    }

    open spec fn from_spec(v: GameProfile) -> Self {
        arbitrary()
    }
}

impl From<GameProfile> for SerializableGameProfile {
    /// The serial form of a profile: its properties listed in the order in
    /// which their names came.
    fn from(value: GameProfile) -> (r: Self)
        ensures
            r@ == value@,
    {
        let mut properties: Vec<SerializableProfilePropertyValue> = Vec::new();
        let n = value.properties.len();
        let mut i: usize = 0;
        while i < n
            invariant
                n == value.properties.entries().len(),
                i <= n,
                listed_view(properties@) == value.properties.entries().take(i as int),
            decreases n - i,
        {
            match value.properties.entry(i) {
                Some(p) => {
                    let item = SerializableProfilePropertyValue {
                        name: p.name.clone(),
                        value: p.value.value.clone(),
                        signature: match &p.value.signature {
                            Some(s) => Some(s.clone()),
                            None => None,
                        },
                    };
                    let ghost before = listed_view(properties@);
                    properties.push(item);
                    proof {
                        assert(listed_view(properties@) =~= before.push(item@));
                        assert(value.properties.entries().take(i + 1) =~= before.push(item@));
                    }
                },
                None => {},
            }
            i = i + 1;
        }
        proof {
            assert(value.properties.entries().take(n as int) =~= value.properties.entries());
        }
        SerializableGameProfile { id: value.uuid, name: value.name, properties }
    }
}

} // verus!
