//! A store of items under string keys, with keys made up for items that bring none.

use vstd::prelude::*;
use vstd::string::*;
use crate::lexical::same_text;

verus! {

/// A place at which `key` is listed, if it is listed at all.
pub open spec fn slot_of<I>(entries: Seq<(Seq<char>, I)>, key: Seq<char>) -> int {
    choose|i: int| 0 <= i < entries.len() && (#[trigger] entries[i]).0 == key
}

/// The map that a list of entries stands for.
pub open spec fn map_of<I>(entries: Seq<(Seq<char>, I)>) -> Map<Seq<char>, I> {
    Map::new(
        |key: Seq<char>| exists|i: int| 0 <= i < entries.len() && (#[trigger] entries[i]).0 == key,
        |key: Seq<char>| entries[slot_of(entries, key)].1,
    )
}

/// Whether no key is listed twice.
pub open spec fn distinct<I>(entries: Seq<(Seq<char>, I)>) -> bool {
    forall|i: int, j: int|
        0 <= i < j < entries.len() ==> (#[trigger] entries[i]).0 != (#[trigger] entries[j]).0
}

/// Whether `key` is listed.
pub open spec fn listed<I>(entries: Seq<(Seq<char>, I)>, key: Seq<char>) -> bool {
    exists|i: int| 0 <= i < entries.len() && (#[trigger] entries[i]).0 == key
}

/// The entries after `item` was put under `key`: in the place of the entry of `key` where
/// there is one, at the end where there is none.
pub open spec fn with_entry<I>(entries: Seq<(Seq<char>, I)>, key: Seq<char>, item: I) -> Seq<
    (Seq<char>, I),
> {
    if listed(entries, key) {
        entries.update(slot_of(entries, key), (key, item))
    } else {
        entries.push((key, item))
    }
}

/// The entries after the entry of `key` was taken out; the others keep their order.
pub open spec fn without_key<I>(entries: Seq<(Seq<char>, I)>, key: Seq<char>) -> Seq<
    (Seq<char>, I),
> {
    if listed(entries, key) {
        entries.remove(slot_of(entries, key))
    } else {
        entries
    }
}

/// In a list without a key twice, a key is listed at one place only.
pub proof fn lemma_slot_is_the_place<I>(entries: Seq<(Seq<char>, I)>, i: int)
    requires
        distinct(entries),
        0 <= i < entries.len(),
    ensures
        listed(entries, entries[i].0),
        slot_of(entries, entries[i].0) == i,
{
    let key = entries[i].0;
    assert(0 <= i < entries.len() && entries[i].0 == key);
    let k = slot_of(entries, key);
    assert(0 <= k < entries.len() && entries[k].0 == key);
}

/// In a list without a key twice, each key is bound to the item of its own entry.
pub proof fn lemma_map_lookup<I>(entries: Seq<(Seq<char>, I)>, i: int)
    requires
        distinct(entries),
        0 <= i < entries.len(),
    ensures
        map_of(entries).contains_key(entries[i].0),
        map_of(entries)[entries[i].0] == entries[i].1,
{
    let key = entries[i].0;
    assert(0 <= i < entries.len() && entries[i].0 == key);
    let k = slot_of(entries, key);
    assert(map_of(entries)[key] == entries[k].1);
}

/// Whether `c` is a digit of a lower-case hexadecimal number.
pub open spec fn is_hex_digit(c: char) -> bool {
    ('0' <= c <= '9') || ('a' <= c <= 'f')
}

/// The shape of the keys that `put` makes up: 32 lower-case hexadecimal digits in groups of
/// 8, 4, 4, 4 and 12 with a hyphen between two groups; the third group begins with `4`, the
/// fourth with `8`, `9`, `a` or `b`.
pub open spec fn is_made_up_key(key: Seq<char>) -> bool {
    &&& key.len() == 36
    &&& forall|i: int|
        0 <= i < 36 ==> if i == 8 || i == 13 || i == 18 || i == 23 {
            #[trigger] key[i] == '-'
        } else {
            is_hex_digit(key[i])
        }
    &&& key[14] == '4'
    &&& (key[19] == '8' || key[19] == '9' || key[19] == 'a' || key[19] == 'b')
}

/// A key from `uuid::Uuid::new_v4`, written out by the `Display` of `uuid::Uuid`.
///
/// The identifier is random, so nothing is claimed of which key comes back, only its shape:
/// the lower-case hyphenated form of an identifier whose version is 4 and whose variant
/// bits are `10`. None of this is proved here; it is taken from the source of `uuid`.
///
/// `new_v4` panics where the operating system hands out no random bytes. No argument
/// decides that, so no precondition can rule it out.
#[verifier::external_body]
fn made_up_key() -> (key: String)
    ensures
        is_made_up_key(key@),
{
    uuid::Uuid::new_v4().to_string()
}

/// Items under string keys. No key is bound twice.
pub struct Store<I> {
    data: Vec<(String, I)>,
}

impl<I> View for Store<I> {
    type V = Map<Seq<char>, I>;

    open spec fn view(&self) -> Map<Seq<char>, I> {
        map_of(self.entries())
    }
}

impl<I> Store<I> {
    #[verifier::type_invariant]
    spec fn keys_distinct(&self) -> bool {
        distinct(self.entries())
    }

    /// The keys with their items, in the order in which the keys came into the store.
    pub closed spec fn entries(&self) -> Seq<(Seq<char>, I)> {
        self.data@.map_values(|e: (String, I)| (e.0@, e.1))
    }

    /// The empty store.
    pub fn new() -> (r: Self)
        ensures
            r.entries() == Seq::<(Seq<char>, I)>::empty(),
            distinct(r.entries()),
            r@ == Map::<Seq<char>, I>::empty(),
    {
        let r = Store { data: Vec::new() };
        proof {
            assert(r.entries() =~= Seq::<(Seq<char>, I)>::empty());
            assert(r@ =~= Map::<Seq<char>, I>::empty());
        }
        r
    }

    /// The place of `key` among the entries, if it is bound.
    fn slot(&self, key: &str) -> (at: Option<usize>)
        ensures
            distinct(self.entries()),
            match at {
                Some(i) => i < self.entries().len() && self.entries()[i as int].0 == key@
                    && listed(self.entries(), key@) && slot_of(self.entries(), key@) == i,
                None => !self@.contains_key(key@) && !listed(self.entries(), key@),
            },
    {
        proof {
            use_type_invariant(self);
        }
        let mut i: usize = 0;
        while i < self.data.len()
            invariant
                distinct(self.entries()),
                i <= self.data@.len(),
                forall|j: int| 0 <= j < i ==> (#[trigger] self.entries()[j]).0 != key@,
            decreases self.data@.len() - i,
        {
            if same_text(self.data[i].0.as_str(), key) {
                proof {
                    lemma_slot_is_the_place(self.entries(), i as int);
                }
                return Some(i);
            }
            i += 1;
        }
        None
    }

    /// The item under `key`.
    pub fn get(&self, key: &str) -> (r: Option<&I>)
        ensures
            distinct(self.entries()),
            match r {
                Some(item) => self@.contains_key(key@) && *item == self@[key@],
                None => !self@.contains_key(key@),
            },
    {
        match self.slot(key) {
            Some(i) => {
                proof {
                    lemma_map_lookup(self.entries(), i as int);
                }
                Some(&self.data[i].1)
            },
            None => None,
        }
    }

    /// Puts `item` under `key`. Returns the item that was there before, if any.
    pub fn update(&mut self, key: &str, item: I) -> (previous: Option<I>)
        ensures
            final(self)@ == old(self)@.insert(key@, item),
            final(self).entries() == with_entry(old(self).entries(), key@, item),
            distinct(old(self).entries()),
            distinct(final(self).entries()),
            match previous {
                Some(was) => old(self)@.contains_key(key@) && was == old(self)@[key@],
                None => !old(self)@.contains_key(key@),
            },
    {
        let ghost before = self.entries();
        let ghost entry = (key@, item);
        let at = self.slot(key);
        let mut data: Vec<(String, I)> = Vec::new();
        proof {
            assert(data@.map_values(|e: (String, I)| (e.0@, e.1)) =~= Seq::<(Seq<char>, I)>::empty());
        }
        core::mem::swap(&mut self.data, &mut data);
        match at {
            Some(i) => {
                let was = data.remove(i);
                data.insert(i, (String::from_str(key), item));
                proof {
                    let after = before.update(i as int, entry);
                    assert(data@.map_values(|e: (String, I)| (e.0@, e.1)) =~= after);
                    assert forall|a: int, b: int| 0 <= a < b < after.len() implies (#[trigger] after[a]).0
                        != (#[trigger] after[b]).0 by {
                        assert(after[a].0 == before[a].0 && after[b].0 == before[b].0);
                    }
                    lemma_map_lookup(before, i as int);
                    assert forall|k: Seq<char>| #[trigger]
                        map_of(after).contains_key(k) <==> map_of(before).insert(
                            key@,
                            item,
                        ).contains_key(k) by {
                        if map_of(after).contains_key(k) {
                            let j = slot_of(after, k);
                            assert(before[j].0 == k);
                        }
                        if map_of(before).contains_key(k) {
                            let j = slot_of(before, k);
                            assert(after[j].0 == k);
                        }
                    }
                    assert forall|k: Seq<char>| #[trigger]
                        map_of(after).contains_key(k) implies map_of(after)[k] == map_of(
                        before,
                    ).insert(key@, item)[k] by {
                        let j = slot_of(after, k);
                        lemma_map_lookup(after, j);
                        if j != i {
                            lemma_map_lookup(before, j);
                        }
                    }
                    assert(map_of(after) =~= map_of(before).insert(key@, item));
                }
                self.data = data;
                Some(was.1)
            },
            None => {
                let owned = String::from_str(key);
                proof {
                    let after = before.push(entry);
                    assert(data@.push((owned, item)).map_values(|e: (String, I)| (e.0@, e.1))
                        =~= after) by {
                        assert(data@.map_values(|e: (String, I)| (e.0@, e.1)) == before);
                    }
                    assert forall|a: int, b: int| 0 <= a < b < after.len() implies (#[trigger] after[a]).0
                        != (#[trigger] after[b]).0 by {
                        if b == before.len() {
                            assert(before[a].0 == after[a].0);
                        } else {
                            assert(after[a].0 == before[a].0 && after[b].0 == before[b].0);
                        }
                    }
                    assert forall|k: Seq<char>| #[trigger]
                        map_of(after).contains_key(k) <==> map_of(before).insert(
                            key@,
                            item,
                        ).contains_key(k) by {
                        if map_of(after).contains_key(k) {
                            let j = slot_of(after, k);
                            if j < before.len() {
                                assert(before[j].0 == k);
                            }
                        }
                        if map_of(before).contains_key(k) {
                            let j = slot_of(before, k);
                            assert(after[j].0 == k);
                        }
                        if k == key@ {
                            assert(after[before.len() as int].0 == k);
                        }
                    }
                    assert forall|k: Seq<char>| #[trigger]
                        map_of(after).contains_key(k) implies map_of(after)[k] == map_of(
                        before,
                    ).insert(key@, item)[k] by {
                        let j = slot_of(after, k);
                        lemma_map_lookup(after, j);
                        if j < before.len() {
                            lemma_map_lookup(before, j);
                        }
                    }
                    assert(map_of(after) =~= map_of(before).insert(key@, item));
                }
                data.push((owned, item));
                self.data = data;
                None
            },
        }
    }

    /// Puts `item` under a key that is made up for it, and returns the key. The key is
    /// random; should it be bound already, the item takes the place of the one under it.
    ///
    /// Panics where the operating system hands out no random bytes.
    pub fn put(&mut self, item: I) -> (key: String)
        ensures
            is_made_up_key(key@),
            final(self)@ == old(self)@.insert(key@, item),
            final(self).entries() == with_entry(old(self).entries(), key@, item),
            distinct(old(self).entries()),
            distinct(final(self).entries()),
    {
        let key = made_up_key();
        self.update(key.as_str(), item);
        key
    }

    /// Takes the item under `key` out of the store.
    pub fn remove(&mut self, key: &str) -> (previous: Option<I>)
        ensures
            final(self)@ == old(self)@.remove(key@),
            final(self).entries() == without_key(old(self).entries(), key@),
            distinct(old(self).entries()),
            distinct(final(self).entries()),
            match previous {
                Some(was) => old(self)@.contains_key(key@) && was == old(self)@[key@],
                None => !old(self)@.contains_key(key@),
            },
    {
        let ghost before = self.entries();
        match self.slot(key) {
            Some(i) => {
                let mut data: Vec<(String, I)> = Vec::new();
                proof {
                    assert(data@.map_values(|e: (String, I)| (e.0@, e.1)) =~= Seq::<
                        (Seq<char>, I),
                    >::empty());
                }
                core::mem::swap(&mut self.data, &mut data);
                let was = data.remove(i);
                proof {
                    let after = before.remove(i as int);
                    assert(data@.map_values(|e: (String, I)| (e.0@, e.1)) =~= after);
                    assert forall|a: int, b: int| 0 <= a < b < after.len() implies (#[trigger] after[a]).0
                        != (#[trigger] after[b]).0 by {
                        let a0 = if a < i { a } else { a + 1 };
                        let b0 = if b < i { b } else { b + 1 };
                        assert(after[a].0 == before[a0].0 && after[b].0 == before[b0].0);
                    }
                    lemma_map_lookup(before, i as int);
                    assert forall|k: Seq<char>| #[trigger]
                        map_of(after).contains_key(k) <==> map_of(before).remove(key@).contains_key(
                            k,
                        ) by {
                        if map_of(after).contains_key(k) {
                            let j = slot_of(after, k);
                            let j0 = if j < i { j } else { j + 1 };
                            assert(before[j0].0 == k);
                        }
                        if map_of(before).contains_key(k) && k != key@ {
                            let j = slot_of(before, k);
                            if j < i {
                                assert(after[j].0 == k);
                            } else {
                                assert(after[j - 1].0 == k);
                            }
                        }
                    }
                    assert forall|k: Seq<char>| #[trigger]
                        map_of(after).contains_key(k) implies map_of(after)[k] == map_of(
                        before,
                    ).remove(key@)[k] by {
                        let j = slot_of(after, k);
                        lemma_map_lookup(after, j);
                        let j0 = if j < i { j } else { j + 1 };
                        lemma_map_lookup(before, j0);
                    }
                    assert(map_of(after) =~= map_of(before).remove(key@));
                }
                self.data = data;
                Some(was.1)
            },
            None => {
                proof {
                    assert(self@ =~= self@.remove(key@));
                }
                None
            },
        }
    }

    /// The first item, in the order of the entries, of which `f` says yes.
    pub fn find<F: Fn(&I) -> bool>(&self, f: F) -> (r: Option<&I>)
        requires
            forall|i: int|
                0 <= i < self.entries().len() ==> call_requires(f, (&(#[trigger] self.entries()[i]).1,)),
        ensures
            distinct(self.entries()),
            match r {
                Some(item) => exists|i: int|
                    0 <= i < self.entries().len() && (#[trigger] self.entries()[i]).1 == *item
                        && call_ensures(f, (item,), true) && forall|j: int|
                        0 <= j < i ==> call_ensures(f, (&(#[trigger] self.entries()[j]).1,), false),
                None => forall|i: int|
                    0 <= i < self.entries().len() ==> call_ensures(
                        f,
                        (&(#[trigger] self.entries()[i]).1,),
                        false,
                    ),
            },
    {
        proof {
            use_type_invariant(self);
        }
        let mut i: usize = 0;
        while i < self.data.len()
            invariant
                distinct(self.entries()),
                i <= self.data@.len(),
                forall|j: int|
                    0 <= j < self.entries().len() ==> call_requires(
                        f,
                        (&(#[trigger] self.entries()[j]).1,),
                    ),
                forall|j: int|
                    0 <= j < i ==> call_ensures(f, (&(#[trigger] self.entries()[j]).1,), false),
            decreases self.data@.len() - i,
        {
            let item = &self.data[i].1;
            assert(self.entries()[i as int].1 == *item);
            if f(item) {
                return Some(item);
            }
            i += 1;
        }
        None
    }

    /// The items of which `f` says yes, in the order of the entries.
    pub fn find_all<F: Fn(&I) -> bool>(&self, f: F) -> (r: Vec<&I>)
        requires
            forall|i: int|
                0 <= i < self.entries().len() ==> call_requires(f, (&(#[trigger] self.entries()[i]).1,)),
        ensures
            distinct(self.entries()),
            exists|answers: Seq<bool>|
                {
                    &&& answers.len() == self.entries().len()
                    &&& forall|i: int|
                        0 <= i < answers.len() ==> call_ensures(
                            f,
                            (&(#[trigger] self.entries()[i]).1,),
                            answers[i],
                        )
                    &&& items_of(r@) == chosen(self.entries(), answers, answers.len())
                },
    {
        let mut out: Vec<&I> = Vec::new();
        let ghost mut answers: Seq<bool> = Seq::empty();
        let mut i: usize = 0;
        proof {
            use_type_invariant(self);
            assert(items_of(out@) =~= chosen(self.entries(), answers, 0));
        }
        while i < self.data.len()
            invariant
                distinct(self.entries()),
                i <= self.data@.len(),
                forall|j: int|
                    0 <= j < self.entries().len() ==> call_requires(
                        f,
                        (&(#[trigger] self.entries()[j]).1,),
                    ),
                answers.len() == i,
                forall|j: int|
                    0 <= j < i ==> call_ensures(
                        f,
                        (&(#[trigger] self.entries()[j]).1,),
                        answers[j],
                    ),
                items_of(out@) == chosen(self.entries(), answers, i as nat),
            decreases self.data@.len() - i,
        {
            let item = &self.data[i].1;
            assert(self.entries()[i as int].1 == *item);
            let yes = f(item);
            let ghost earlier = answers;
            proof {
                answers = answers.push(yes);
                lemma_chosen_prefix(self.entries(), earlier, answers, i as nat);
            }
            if yes {
                proof {
                    assert(items_of(out@.push(item)) =~= items_of(out@).push(*item));
                }
                out.push(item);
            }
            i += 1;
            proof {
                assert(items_of(out@) =~= chosen(self.entries(), answers, i as nat));
            }
        }
        out
    }
}

/// The items behind a list of references.
pub open spec fn items_of<I>(refs: Seq<&I>) -> Seq<I> {
    Seq::new(refs.len(), |i: int| *refs[i])
}

/// The items among the first `n` entries whose answer is yes, in the order of the entries.
pub open spec fn chosen<I>(entries: Seq<(Seq<char>, I)>, answers: Seq<bool>, n: nat) -> Seq<I>
    decreases n,
{
    if n == 0 || n > entries.len() || n > answers.len() {
        Seq::empty()
    } else if answers[n - 1] {
        chosen(entries, answers, (n - 1) as nat).push(entries[n - 1].1)
    } else {
        chosen(entries, answers, (n - 1) as nat)
    }
}

/// What is chosen among the first `n` entries depends on the first `n` answers alone.
proof fn lemma_chosen_prefix<I>(entries: Seq<(Seq<char>, I)>, a: Seq<bool>, b: Seq<bool>, n: nat)
    requires
        n <= a.len(),
        n <= b.len(),
        forall|i: int| 0 <= i < n ==> a[i] == b[i],
    ensures
        chosen(entries, a, n) == chosen(entries, b, n),
    decreases n,
{
    if n > 0 {
        lemma_chosen_prefix(entries, a, b, (n - 1) as nat);
    }
}

} // verus!
