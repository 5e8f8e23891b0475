//! The cache of contacts.

use vstd::prelude::*;

use crate::events::Contact;
use crate::hex::{self, hex_encode};
use crate::text;

verus! {

/// The key under which a contact is filed: its public key in hexadecimal.
pub open spec fn contact_key<D>(contact: Contact<D>) -> Seq<char> {
    hex::hex(contact.public_key@)
}

/// Whether every contact of `contacts` is filed under its own key.
pub open spec fn filed_by_key<D>(contacts: Map<Seq<char>, Contact<D>>) -> bool {
    forall|key: Seq<char>| #[trigger]
        contacts.dom().contains(key) ==> contact_key(contacts[key]) == key
}

/// The contacts of a list by their keys. Where a key occurs more than once, the
/// last contact that has it stays.
pub open spec fn indexed<D>(contacts: Seq<Contact<D>>) -> Map<Seq<char>, Contact<D>>
    decreases contacts.len(),
{
    if contacts.len() == 0 {
        Map::empty()
    } else {
        indexed(contacts.drop_last()).insert(contact_key(contacts.last()), contacts.last())
    }
}

/// Whether `contact` goes by `name`, in any mix of ASCII cases.
pub open spec fn has_name<D>(contact: Contact<D>, name: Seq<char>) -> bool {
    text::lowered(contact.adv_name@) == text::lowered(name)
}

/// Whether the public key of `contact` begins with `prefix`.
pub open spec fn has_prefix<D>(contact: Contact<D>, prefix: Seq<u8>) -> bool {
    prefix.is_prefix_of(contact.public_key@)
}

/// Whether `found` answers a search for `name` among `contacts`: one of the
/// contacts that go by it, or nothing where there is none.
pub open spec fn answers_name<D>(
    contacts: Map<Seq<char>, Contact<D>>,
    name: Seq<char>,
    found: Option<&Contact<D>>,
) -> bool {
    match found {
        Some(contact) => contacts.contains_value(*contact) && has_name(*contact, name),
        None => forall|key: Seq<char>| #[trigger]
            contacts.dom().contains(key) ==> !has_name(contacts[key], name),
    }
}

/// Whether `found` answers a search for `prefix` among `contacts`: one of the
/// contacts whose public key begins with it, or nothing where there is none.
pub open spec fn answers_prefix<D>(
    contacts: Map<Seq<char>, Contact<D>>,
    prefix: Seq<u8>,
    found: Option<&Contact<D>>,
) -> bool {
    match found {
        Some(contact) => contacts.contains_value(*contact) && has_prefix(*contact, prefix),
        None => forall|key: Seq<char>| #[trigger]
            contacts.dom().contains(key) ==> !has_prefix(contacts[key], prefix),
    }
}

/// Whether `data` begins with `prefix`.
fn starts_with(data: &[u8], prefix: &[u8]) -> (yes: bool)
    ensures
        yes == prefix@.is_prefix_of(data@),
{
    if prefix.len() > data.len() {
        return false;
    }
    for i in 0..prefix.len()
        invariant
            prefix@.len() <= data@.len(),
            forall|j: int| 0 <= j < i ==> prefix@[j] == data@[j],
    {
        if prefix[i] != data[i] {
            assert(prefix@[i as int] != data@.subrange(0, prefix@.len() as int)[i as int]);
            return false;
        }
    }
    true
}

/// An entry of the cache: a key, and the contact that is filed under it.
pub struct ContactEntry<D> {
    /// The key.
    pub key: String,
    /// The contact.
    pub contact: Contact<D>,
}

/// Whether `entries` has an entry for `key`.
pub open spec fn lists<D>(entries: Seq<ContactEntry<D>>, key: Seq<char>) -> bool {
    exists|i: int| 0 <= i < entries.len() && (#[trigger] entries[i]).key@ == key
}

/// The place of an entry for `key`.
pub open spec fn place<D>(entries: Seq<ContactEntry<D>>, key: Seq<char>) -> int {
    choose|i: int| 0 <= i < entries.len() && (#[trigger] entries[i]).key@ == key
}

/// The map that `entries` spell out.
pub open spec fn spelled_out<D>(entries: Seq<ContactEntry<D>>) -> Map<Seq<char>, Contact<D>> {
    Map::new(|key: Seq<char>| lists(entries, key), |key: Seq<char>| entries[place(entries, key)].contact)
}

/// Whether no key occurs twice.
pub open spec fn distinct<D>(entries: Seq<ContactEntry<D>>) -> bool {
    forall|i: int, j: int|
        0 <= i < entries.len() && 0 <= j < entries.len() && (#[trigger] entries[i]).key@ == (
        #[trigger] entries[j]).key@ ==> i == j
}

/// A map from keys to contacts, in which every contact is filed under its key.
pub struct ContactMap<D> {
    entries: Vec<ContactEntry<D>>,
}

impl<D> View for ContactMap<D> {
    type V = Map<Seq<char>, Contact<D>>;

    closed spec fn view(&self) -> Map<Seq<char>, Contact<D>> {
        spelled_out(self.entries@)
    }
}

impl<D> ContactMap<D> {
    /// No key occurs twice, and each contact is filed under its own key.
    pub closed spec fn wf(&self) -> bool {
        &&& distinct(self.entries@)
        &&& forall|i: int|
            0 <= i < self.entries@.len() ==> contact_key((#[trigger] self.entries@[i]).contact)
                == self.entries@[i].key@
    }

    /// Makes an empty map.
    pub fn new() -> (map: Self)
        ensures
            map.wf(),
            map@ == Map::<Seq<char>, Contact<D>>::empty(),
    {
        let map: Self = ContactMap { entries: Vec::new() };
        assert(map@ =~= Map::empty());
        map
    }

    /// The entry at `i` is what the map holds under its key.
    proof fn lemma_entry(&self, i: int)
        requires
            self.wf(),
            0 <= i < self.entries@.len(),
        ensures
            self@.dom().contains(self.entries@[i].key@),
            self@[self.entries@[i].key@] == self.entries@[i].contact,
    {
    }

    /// The place of the entry for `key`.
    fn find(&self, key: &String) -> (found: Option<usize>)
        requires
            self.wf(),
        ensures
            match found {
                Some(i) => i < self.entries@.len() && self.entries@[i as int].key@ == key@,
                None => !self@.dom().contains(key@),
            },
    {
        for i in 0..self.entries.len()
            invariant
                forall|j: int| 0 <= j < i ==> (#[trigger] self.entries@[j]).key@ != key@,
        {
            if self.entries[i].key == *key {
                return Some(i);
            }
        }
        None
    }

    /// Files `contact` under its key. A contact that was filed there before is
    /// replaced.
    pub fn insert(&mut self, contact: Contact<D>)
        requires
            old(self).wf(),
        ensures
            final(self).wf(),
            final(self)@ == old(self)@.insert(contact_key(contact), contact),
            final(self)@ == old(self)@.insert(hex::hex(contact.public_key@), contact),
    {
        let key: String = hex_encode(contact.public_key.as_slice());
        let found: Option<usize> = self.find(&key);
        let entry: ContactEntry<D> = ContactEntry { key, contact };
        match found {
            Some(i) => {
                self.entries.set(i, entry);
            },
            None => {
                self.entries.push(entry);
            },
        }
        proof {
            let before = old(self).entries@;
            let after = self.entries@;
            let expected = old(self)@.insert(entry.key@, entry.contact);
            let at = match found {
                Some(i) => i as int,
                None => before.len() as int,
            };
            assert(after[at].key@ == entry.key@);
            assert(self.wf());
            assert forall|k: Seq<char>| self@.dom().contains(k) <==> expected.dom().contains(k) by {
                if lists(before, k) {
                    let j = place(before, k);
                    assert(after[j].key@ == k);
                }
                if lists(after, k) {
                    let j = place(after, k);
                    if j < before.len() {
                        assert(before[j].key@ == k);
                    }
                }
            }
            assert forall|k: Seq<char>| self@.dom().contains(k) implies self@[k] == expected[k] by {
                let j = place(after, k);
                self.lemma_entry(j);
                if k != entry.key@ {
                    assert(before[j].key@ == k);
                    old(self).lemma_entry(j);
                }
            }
            assert(self@ =~= expected);
        }
    }

    /// Drops all contacts and files those of `contacts`, in order.
    pub fn replace_all(&mut self, contacts: Vec<Contact<D>>)
        requires
            old(self).wf(),
        ensures
            final(self).wf(),
            final(self)@ == indexed(contacts@),
            forall|i: int|
                0 <= i < contacts@.len() && (forall|j: int|
                    i < j < contacts@.len() ==> (#[trigger] contacts@[j]).public_key@
                        != contacts@[i].public_key@) ==> {
                    let key = hex::hex((#[trigger] contacts@[i]).public_key@);
                    final(self)@.dom().contains(key) && final(self)@[key] == contacts@[i]
                },
            forall|key: Seq<char>| #[trigger]
                final(self)@.dom().contains(key) ==> contacts@.contains(final(self)@[key]),
    {
        self.entries.clear();
        assert(self@ =~= Map::empty());
        for contact in rest: contacts
            invariant
                self.wf(),
                self@ == indexed(rest.seq().take(rest.index() as int)),
        {
            proof {
                let n = rest.index() as int;
                assert(rest.seq().take(n + 1).drop_last() =~= rest.seq().take(n));
                assert(rest.seq().take(n + 1).last() == contact);
            }
            self.insert(contact);
        }
        proof {
            assert(contacts@.take(contacts@.len() as int) =~= contacts@);
            lemma_list_is_cached(contacts@);
        }
    }

    /// The contact that is filed under `key`.
    pub fn get(&self, key: &str) -> (contact: Option<&Contact<D>>)
        requires
            self.wf(),
        ensures
            match contact {
                Some(found) => self@.dom().contains(key@) && *found == self@[key@],
                None => !self@.dom().contains(key@),
            },
    {
        match self.find(&key.to_owned()) {
            Some(i) => {
                proof {
                    self.lemma_entry(i as int);
                }
                Some(&self.entries[i].contact)
            },
            None => None,
        }
    }

    /// The entries of the map, in no particular order.
    pub fn entries(&self) -> (entries: &[ContactEntry<D>])
        requires
            self.wf(),
        ensures
            spelled_out(entries@) == self@,
            distinct(entries@),
            forall|i: int|
                0 <= i < entries@.len() ==> self@.dom().contains((#[trigger] entries@[i]).key@)
                    && self@[entries@[i].key@] == entries@[i].contact,
            forall|key: Seq<char>| #[trigger]
                self@.dom().contains(key) ==> exists|i: int|
                    0 <= i < entries@.len() && (#[trigger] entries@[i]).key@ == key,
            forall|i: int, j: int|
                0 <= i < j < entries@.len() ==> (#[trigger] entries@[i]).key@ != (
                #[trigger] entries@[j]).key@,
    {
        proof {
            assert forall|i: int| 0 <= i < self.entries@.len() implies self@.dom().contains(
                (#[trigger] self.entries@[i]).key@,
            ) && self@[self.entries@[i].key@] == self.entries@[i].contact by {
                self.lemma_entry(i);
            }
        }
        self.entries.as_slice()
    }

    /// A contact that goes by `name`, in any mix of ASCII cases. Where several
    /// do, it may be any of them.
    pub fn find_by_name(&self, name: &str) -> (contact: Option<&Contact<D>>)
        requires
            self.wf(),
        ensures
            answers_name(self@, name@, contact),
            contact matches Some(found) ==> {
                &&& found.adv_name@.len() == name@.len()
                &&& forall|i: int|
                    0 <= i < name@.len() ==> {
                        ||| #[trigger] found.adv_name@[i] == name@[i]
                        ||| 65 <= found.adv_name@[i] as int <= 90 && name@[i] as int
                            == found.adv_name@[i] as int + 32
                        ||| 65 <= name@[i] as int <= 90 && found.adv_name@[i] as int
                            == name@[i] as int + 32
                    }
            },
            contact is None ==> forall|key: Seq<char>| #[trigger]
                self@.dom().contains(key) ==> !(self@[key].adv_name@.len() == name@.len()
                    && forall|i: int|
                    0 <= i < name@.len() ==> {
                        ||| #[trigger] self@[key].adv_name@[i] == name@[i]
                        ||| 65 <= self@[key].adv_name@[i] as int <= 90 && name@[i] as int
                            == self@[key].adv_name@[i] as int + 32
                        ||| 65 <= name@[i] as int <= 90 && self@[key].adv_name@[i] as int
                            == name@[i] as int + 32
                    }),
    {
        let contact: Option<&Contact<D>> = self.search_name(name);
        proof {
            lemma_name_answer(self@, name@, contact);
        }
        contact
    }

    /// Looks for a contact that goes by `name`.
    fn search_name(&self, name: &str) -> (contact: Option<&Contact<D>>)
        requires
            self.wf(),
        ensures
            answers_name(self@, name@, contact),
    {
        for i in 0..self.entries.len()
            invariant
                self.wf(),
                forall|j: int| 0 <= j < i ==> !has_name((#[trigger] self.entries@[j]).contact, name@),
        {
            let contact: &Contact<D> = &self.entries[i].contact;
            if contact.adv_name.as_str().eq_ignore_ascii_case(name) {
                proof {
                    self.lemma_entry(i as int);
                }
                return Some(contact);
            }
        }
        None
    }

    /// A contact whose public key begins with `prefix`. Where several do, it may
    /// be any of them.
    pub fn find_by_prefix(&self, prefix: &[u8]) -> (contact: Option<&Contact<D>>)
        requires
            self.wf(),
        ensures
            answers_prefix(self@, prefix@, contact),
            contact matches Some(found) ==> {
                &&& prefix@.len() <= found.public_key@.len()
                &&& forall|i: int| 0 <= i < prefix@.len() ==> #[trigger] found.public_key@[i] == prefix@[i]
            },
            contact is None ==> forall|key: Seq<char>| #[trigger]
                self@.dom().contains(key) ==> !(prefix@.len() <= self@[key].public_key@.len()
                    && forall|i: int|
                    0 <= i < prefix@.len() ==> #[trigger] self@[key].public_key@[i] == prefix@[i]),
    {
        let contact: Option<&Contact<D>> = self.search_prefix(prefix);
        proof {
            lemma_prefix_answer(self@, prefix@, contact);
        }
        contact
    }

    /// Looks for a contact whose public key begins with `prefix`.
    fn search_prefix(&self, prefix: &[u8]) -> (contact: Option<&Contact<D>>)
        requires
            self.wf(),
        ensures
            answers_prefix(self@, prefix@, contact),
    {
        for i in 0..self.entries.len()
            invariant
                self.wf(),
                forall|j: int|
                    0 <= j < i ==> !has_prefix((#[trigger] self.entries@[j]).contact, prefix@),
        {
            let contact: &Contact<D> = &self.entries[i].contact;
            if starts_with(contact.public_key.as_slice(), prefix) {
                proof {
                    self.lemma_entry(i as int);
                }
                return Some(contact);
            }
        }
        None
    }

    /// Every contact in the map is filed under its own key.
    pub proof fn lemma_filed_by_key(&self)
        requires
            self.wf(),
        ensures
            filed_by_key(self@),
    {
        assert forall|key: Seq<char>| #[trigger] self@.dom().contains(key) implies contact_key(self@[key]) == key by {
            self.lemma_entry(place(self.entries@, key));
        }
    }
}

/// Filing by key keeps one contact for each public key: two contacts of the map
/// that have the same public key are the same.
pub proof fn lemma_one_contact_per_public_key<D>(
    contacts: Map<Seq<char>, Contact<D>>,
    a: Contact<D>,
    b: Contact<D>,
)
    requires
        filed_by_key(contacts),
        contacts.contains_value(a),
        contacts.contains_value(b),
        a.public_key@ == b.public_key@,
    ensures
        a == b,
{
    let i = choose|i: Seq<char>| #[trigger] contacts.dom().contains(i) && contacts[i] == a;
    let j = choose|j: Seq<char>| #[trigger] contacts.dom().contains(j) && contacts[j] == b;
    assert(contact_key(contacts[i]) == i && contact_key(contacts[j]) == j);
}

/// Contacts with different public keys never displace each other.
pub proof fn lemma_different_public_keys_do_not_clash<D>(a: Contact<D>, b: Contact<D>)
    requires
        a.public_key@ != b.public_key@,
    ensures
        contact_key(a) != contact_key(b),
{
    if contact_key(a) == contact_key(b) {
        hex::lemma_hex_is_injective(a.public_key@, b.public_key@);
    }
}

/// Filing a list keeps exactly the keys that occur in it.
pub proof fn lemma_indexed_keys<D>(contacts: Seq<Contact<D>>, key: Seq<char>)
    ensures
        indexed(contacts).dom().contains(key) <==> exists|i: int|
            0 <= i < contacts.len() && contact_key(#[trigger] contacts[i]) == key,
    decreases contacts.len(),
{
    if contacts.len() > 0 {
        let n = contacts.len() - 1;
        let earlier = contacts.drop_last();
        lemma_indexed_keys(earlier, key);
        if indexed(earlier).dom().contains(key) {
            let i = choose|i: int| 0 <= i < earlier.len() && contact_key(#[trigger] earlier[i]) == key;
            assert(contact_key(contacts[i]) == key);
        }
        if contact_key(contacts[n]) == key {
            assert(indexed(contacts).dom().contains(key));
        }
        if exists|i: int| 0 <= i < contacts.len() && contact_key(#[trigger] contacts[i]) == key {
            let i = choose|i: int| 0 <= i < contacts.len() && contact_key(#[trigger] contacts[i]) == key;
            if i < n {
                assert(contact_key(earlier[i]) == key);
            }
        }
    }
}

/// Filing a list keeps, of contacts with the same key, the last one.
pub proof fn lemma_indexed_keeps_the_last<D>(contacts: Seq<Contact<D>>, i: int)
    requires
        0 <= i < contacts.len(),
        forall|j: int| i < j < contacts.len() ==> contact_key(#[trigger] contacts[j]) != contact_key(contacts[i]),
    ensures
        indexed(contacts).dom().contains(contact_key(contacts[i])),
        indexed(contacts)[contact_key(contacts[i])] == contacts[i],
    decreases contacts.len(),
{
    let n = contacts.len() - 1;
    if i < n {
        let earlier = contacts.drop_last();
        assert(contact_key(contacts[n]) != contact_key(contacts[i]));
        assert forall|j: int| i < j < earlier.len() implies contact_key(#[trigger] earlier[j]) != contact_key(
            earlier[i],
        ) by {
            assert(contact_key(contacts[j]) != contact_key(contacts[i]));
        }
        lemma_indexed_keeps_the_last(earlier, i);
    }
}

/// A filed list is filed by key.
pub proof fn lemma_indexed_is_filed_by_key<D>(contacts: Seq<Contact<D>>)
    ensures
        filed_by_key(indexed(contacts)),
    decreases contacts.len(),
{
    if contacts.len() > 0 {
        lemma_indexed_is_filed_by_key(contacts.drop_last());
    }
}

/// Which names a contact goes by: those of the same length that have, at every
/// place, the same character or the other case of the same ASCII letter.
pub proof fn lemma_name_fits<D>(contact: Contact<D>, name: Seq<char>)
    ensures
        has_name(contact, name) <==> contact.adv_name@.len() == name.len() && forall|i: int|
            0 <= i < name.len() ==> {
                ||| #[trigger] contact.adv_name@[i] == name[i]
                ||| 65 <= contact.adv_name@[i] as int <= 90 && name[i] as int
                    == contact.adv_name@[i] as int + 32
                ||| 65 <= name[i] as int <= 90 && contact.adv_name@[i] as int == name[i] as int + 32
            },
{
    text::lemma_same_but_for_case(contact.adv_name@, name);
}

/// Which prefixes a contact's public key has: those no longer than it that agree
/// with it at every place they have.
pub proof fn lemma_prefix_fits<D>(contact: Contact<D>, prefix: Seq<u8>)
    ensures
        has_prefix(contact, prefix) <==> prefix.len() <= contact.public_key@.len() && forall|i: int|
            0 <= i < prefix.len() ==> #[trigger] contact.public_key@[i] == prefix[i],
{
    let front = contact.public_key@.subrange(0, prefix.len() as int);
    if has_prefix(contact, prefix) {
        assert forall|i: int| 0 <= i < prefix.len() implies #[trigger] contact.public_key@[i] == prefix[i] by {
            assert(front[i] == contact.public_key@[i]);
        }
    }
    if prefix.len() <= contact.public_key@.len() && forall|i: int|
        0 <= i < prefix.len() ==> #[trigger] contact.public_key@[i] == prefix[i] {
        assert(prefix =~= front);
    }
}

/// What a search by name answers: a contact whose name agrees with the name sought
/// at every place but for ASCII case, and none only where no contact's does.
pub proof fn lemma_name_answer<D>(
    contacts: Map<Seq<char>, Contact<D>>,
    name: Seq<char>,
    found: Option<&Contact<D>>,
)
    requires
        answers_name(contacts, name, found),
    ensures
        found matches Some(it) ==> contacts.contains_value(*it),
        found matches Some(it) ==> {
            &&& it.adv_name@.len() == name.len()
            &&& forall|i: int|
                0 <= i < name.len() ==> {
                    ||| #[trigger] it.adv_name@[i] == name[i]
                    ||| 65 <= it.adv_name@[i] as int <= 90 && name[i] as int
                        == it.adv_name@[i] as int + 32
                    ||| 65 <= name[i] as int <= 90 && it.adv_name@[i] as int
                        == name[i] as int + 32
                }
        },
        found is None ==> forall|key: Seq<char>| #[trigger]
            contacts.dom().contains(key) ==> !(contacts[key].adv_name@.len() == name.len()
                && forall|i: int|
                0 <= i < name.len() ==> {
                    ||| #[trigger] contacts[key].adv_name@[i] == name[i]
                    ||| 65 <= contacts[key].adv_name@[i] as int <= 90 && name[i] as int
                        == contacts[key].adv_name@[i] as int + 32
                    ||| 65 <= name[i] as int <= 90 && contacts[key].adv_name@[i] as int
                        == name[i] as int + 32
                }),
{
    if let Some(it) = found {
        lemma_name_fits(*it, name);
    }
    assert forall|key: Seq<char>| #[trigger] contacts.dom().contains(key) && found is None implies !(
    contacts[key].adv_name@.len() == name.len() && forall|i: int|
        0 <= i < name.len() ==> {
            ||| #[trigger] contacts[key].adv_name@[i] == name[i]
            ||| 65 <= contacts[key].adv_name@[i] as int <= 90 && name[i] as int
                == contacts[key].adv_name@[i] as int + 32
            ||| 65 <= name[i] as int <= 90 && contacts[key].adv_name@[i] as int == name[i] as int + 32
        }) by {
        lemma_name_fits(contacts[key], name);
    }
}

/// What a search by prefix answers: a contact whose public key agrees with the
/// prefix at every place, and none only where no contact's does.
pub proof fn lemma_prefix_answer<D>(
    contacts: Map<Seq<char>, Contact<D>>,
    prefix: Seq<u8>,
    found: Option<&Contact<D>>,
)
    requires
        answers_prefix(contacts, prefix, found),
    ensures
        found matches Some(it) ==> contacts.contains_value(*it),
        found matches Some(it) ==> {
            &&& prefix.len() <= it.public_key@.len()
            &&& forall|i: int| 0 <= i < prefix.len() ==> #[trigger] it.public_key@[i] == prefix[i]
        },
        found is None ==> forall|key: Seq<char>| #[trigger]
            contacts.dom().contains(key) ==> !(prefix.len() <= contacts[key].public_key@.len()
                && forall|i: int|
                0 <= i < prefix.len() ==> #[trigger] contacts[key].public_key@[i] == prefix[i]),
{
    if let Some(it) = found {
        lemma_prefix_fits(*it, prefix);
    }
    assert forall|key: Seq<char>| #[trigger] contacts.dom().contains(key) && found is None implies !(
    prefix.len() <= contacts[key].public_key@.len() && forall|i: int|
        0 <= i < prefix.len() ==> #[trigger] contacts[key].public_key@[i] == prefix[i]) by {
        lemma_prefix_fits(contacts[key], prefix);
    }
}

/// What caching a list does: every contact that no later one with the same public
/// key follows is found under the hexadecimal form of its public key, and nothing
/// is cached that is not in the list.
pub proof fn lemma_list_is_cached<D>(contacts: Seq<Contact<D>>)
    ensures
        forall|i: int|
            0 <= i < contacts.len() && (forall|j: int|
                i < j < contacts.len() ==> (#[trigger] contacts[j]).public_key@
                    != contacts[i].public_key@) ==> {
                let key = hex::hex((#[trigger] contacts[i]).public_key@);
                indexed(contacts).dom().contains(key) && indexed(contacts)[key] == contacts[i]
            },
        forall|key: Seq<char>| #[trigger]
            indexed(contacts).dom().contains(key) ==> contacts.contains(indexed(contacts)[key]),
{
    assert forall|i: int|
        0 <= i < contacts.len() && (forall|j: int|
            i < j < contacts.len() ==> (#[trigger] contacts[j]).public_key@
                != contacts[i].public_key@) implies {
        let key = hex::hex((#[trigger] contacts[i]).public_key@);
        indexed(contacts).dom().contains(key) && indexed(contacts)[key] == contacts[i]
    } by {
        assert forall|j: int| i < j < contacts.len() implies contact_key(#[trigger] contacts[j])
            != contact_key(contacts[i]) by {
            lemma_different_public_keys_do_not_clash(contacts[j], contacts[i]);
        }
        lemma_indexed_keeps_the_last(contacts, i);
    }
    assert forall|key: Seq<char>| #[trigger] indexed(contacts).dom().contains(key) implies contacts.contains(
        indexed(contacts)[key],
    ) by {
        lemma_cached_is_listed(contacts, key);
    }
}

proof fn lemma_cached_is_listed<D>(contacts: Seq<Contact<D>>, key: Seq<char>)
    requires
        indexed(contacts).dom().contains(key),
    ensures
        contacts.contains(indexed(contacts)[key]),
    decreases contacts.len(),
{
    if contacts.len() > 0 {
        let n = contacts.len() - 1;
        if contact_key(contacts[n]) == key {
            assert(indexed(contacts)[key] == contacts[n]);
        } else {
            let earlier = contacts.drop_last();
            lemma_cached_is_listed(earlier, key);
            let i = choose|i: int| 0 <= i < earlier.len() && earlier[i] == indexed(earlier)[key];
            assert(contacts[i] == indexed(contacts)[key]);
        }
    }
}

/// The key of a contact is its public key in hexadecimal: two characters for each
/// byte.
pub proof fn lemma_contact_key_is_hex<D>(contact: Contact<D>)
    ensures
        contact_key(contact) == hex::hex(contact.public_key@),
        contact_key(contact).len() == 2 * contact.public_key@.len(),
        forall|i: int|
            0 <= i < contact.public_key@.len() ==> contact_key(contact)[2 * i]
                == "0123456789abcdef"@[#[trigger] contact.public_key@[i] as int / 16]
                && contact_key(contact)[2 * i + 1]
                == "0123456789abcdef"@[contact.public_key@[i] as int % 16],
{
    assert forall|i: int| 0 <= i < contact.public_key@.len() implies contact_key(contact)[2 * i]
        == "0123456789abcdef"@[#[trigger] contact.public_key@[i] as int / 16] && contact_key(contact)[2 * i
        + 1] == "0123456789abcdef"@[contact.public_key@[i] as int % 16] by {
        hex::lemma_hex_digits(contact.public_key@, i);
    }
}

/// The case of ASCII letters makes no difference to a search by name: the same
/// contacts answer it.
pub proof fn lemma_name_search_ignores_case<D>(
    contacts: Map<Seq<char>, Contact<D>>,
    name: Seq<char>,
    other: Seq<char>,
    found: Option<&Contact<D>>,
)
    requires
        text::lowered(name) == text::lowered(other),
    ensures
        answers_name(contacts, name, found) == answers_name(contacts, other, found),
{
}

/// A search for the name of a known contact finds a contact of that name, and
/// this contact where no other goes by it.
pub proof fn lemma_known_name_is_found<D>(
    contacts: Map<Seq<char>, Contact<D>>,
    contact: Contact<D>,
    found: Option<&Contact<D>>,
)
    requires
        contacts.contains_value(contact),
        answers_name(contacts, contact.adv_name@, found),
    ensures
        found is Some,
        (forall|key: Seq<char>| #[trigger]
            contacts.dom().contains(key) && has_name(contacts[key], contact.adv_name@)
                ==> contacts[key] == contact) ==> *found->0 == contact,
{
    let own = choose|key: Seq<char>| #[trigger] contacts.dom().contains(key) && contacts[key] == contact;
    assert(has_name(contacts[own], contact.adv_name@));
}

/// A search for the beginning of a known public key finds a contact.
pub proof fn lemma_known_prefix_is_found<D>(
    contacts: Map<Seq<char>, Contact<D>>,
    contact: Contact<D>,
    prefix: Seq<u8>,
    found: Option<&Contact<D>>,
)
    requires
        contacts.contains_value(contact),
        has_prefix(contact, prefix),
        answers_prefix(contacts, prefix, found),
    ensures
        found is Some,
{
    let own = choose|key: Seq<char>| #[trigger] contacts.dom().contains(key) && contacts[key] == contact;
    assert(has_prefix(contacts[own], prefix));
}

/// A search for a whole public key finds the contact that has it, where all keys
/// have the same length.
pub proof fn lemma_whole_key_finds_its_contact<D>(
    contacts: Map<Seq<char>, Contact<D>>,
    contact: Contact<D>,
    found: Option<&Contact<D>>,
)
    requires
        filed_by_key(contacts),
        forall|key: Seq<char>| #[trigger]
            contacts.dom().contains(key) ==> contacts[key].public_key@.len()
                == contact.public_key@.len(),
        contacts.contains_value(contact),
        answers_prefix(contacts, contact.public_key@, found),
    ensures
        found matches Some(it) && *it == contact,
{
    assert(contact.public_key@.subrange(0, contact.public_key@.len() as int) =~= contact.public_key@);
    lemma_known_prefix_is_found(contacts, contact, contact.public_key@, found);
    let it = *found->0;
    let key = choose|key: Seq<char>| #[trigger] contacts.dom().contains(key) && contacts[key] == it;
    assert(it.public_key@ =~= contact.public_key@);
    lemma_one_contact_per_public_key(contacts, contact, it);
}

/// The empty prefix finds a contact whenever there is one.
pub proof fn lemma_empty_prefix_finds_any<D>(
    contacts: Map<Seq<char>, Contact<D>>,
    found: Option<&Contact<D>>,
)
    requires
        answers_prefix(contacts, Seq::empty(), found),
    ensures
        found is None <==> contacts.dom() =~= Set::empty(),
{
    if found is None {
        assert forall|key: Seq<char>| !contacts.dom().contains(key) by {
            if contacts.dom().contains(key) {
                assert(Seq::<u8>::empty() =~= contacts[key].public_key@.subrange(0, 0));
                assert(has_prefix(contacts[key], Seq::empty()));
            }
        }
    }
}

} // verus!
