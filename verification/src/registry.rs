//! Which databases are registered: by id, and by the file they stand for.
use crate::error::Error;
use crate::text;
use crate::text::debug_quoted;
use vstd::prelude::*;

verus! {

/// A registered database: its id and the file it stands for, spelled in one
/// way however it was given.
#[derive(Debug)]
pub struct Registration {
    pub id: String,
    pub canonical: String,
}

/// What a [`Registration`] holds.
pub struct RegistrationModel {
    pub id: Seq<char>,
    pub canonical: Seq<char>,
}

impl View for Registration {
    type V = RegistrationModel;

    open spec fn view(&self) -> RegistrationModel {
        RegistrationModel { id: self.id@, canonical: self.canonical@ }
    }
}

/// The registered databases, in the order of their ids.
#[derive(Debug)]
pub struct Registry {
    entries: Vec<Registration>,
}

impl View for Registry {
    type V = Seq<RegistrationModel>;

    closed spec fn view(&self) -> Seq<RegistrationModel> {
        Seq::new(self.entries@.len(), |i: int| self.entries@[i]@)
    }
}

/// Whether `a` comes before `b` in the order of texts, which is that of their
/// first characters that differ.
pub open spec fn text_before(a: Seq<char>, b: Seq<char>) -> bool
    decreases a.len(),
{
    if b.len() == 0 {
        false
    } else if a.len() == 0 {
        true
    } else if a[0] != b[0] {
        a[0] < b[0]
    } else {
        text_before(a.skip(1), b.skip(1))
    }
}

/// No two registrations share their id or their file, and they are in order.
pub open spec fn registry_wf(r: Seq<RegistrationModel>) -> bool {
    &&& forall|i: int, j: int|
        0 <= i < j < r.len() ==> text_before((#[trigger] r[i]).id, (#[trigger] r[j]).id)
    &&& forall|i: int, j: int|
        0 <= i < j < r.len() ==> (#[trigger] r[i]).canonical != (#[trigger] r[j]).canonical
}

/// Whether an id is registered.
pub open spec fn has_id(r: Seq<RegistrationModel>, id: Seq<char>) -> bool {
    exists|i: int| 0 <= i < r.len() && (#[trigger] r[i]).id == id
}

/// What is said of an id that is taken.
pub open spec fn duplicate_id_text(id: Seq<char>) -> Seq<char> {
    "db id already registered: "@ + debug_quoted(id)
}

/// What is said of a file that is taken.
pub open spec fn duplicate_path_text(path: Seq<char>, id: Seq<char>) -> Seq<char> {
    "db path "@ + debug_quoted(path) + " already registered as "@ + debug_quoted(id)
}

/// What is said of an id that is not registered.
pub open spec fn unknown_id_text(id: Seq<char>) -> Seq<char> {
    "unknown db id: "@ + debug_quoted(id)
}

/// Whether one text comes before another.
pub fn comes_before(a: &str, b: &str) -> (r: bool)
    ensures
        r == text_before(a@, b@),
{
    let ac = text::chars_of(a);
    let bc = text::chars_of(b);
    let mut i: usize = 0;
    assert(ac@.skip(0) =~= ac@ && bc@.skip(0) =~= bc@);
    while i < ac.len() && i < bc.len() && ac[i] == bc[i]
        invariant
            i <= ac@.len(),
            i <= bc@.len(),
            text_before(ac@.skip(i as int), bc@.skip(i as int)) == text_before(ac@, bc@),
        decreases ac@.len() - i,
    {
        assert(ac@.skip(i as int).skip(1) =~= ac@.skip(i + 1));
        assert(bc@.skip(i as int).skip(1) =~= bc@.skip(i + 1));
        i += 1;
    }
    assert(ac@ == a@ && bc@ == b@);
    if i == bc.len() {
        false
    } else if i == ac.len() {
        true
    } else {
        ac[i] < bc[i]
    }
}

/// Texts are strictly and totally ordered.
pub proof fn law_texts_are_ordered(a: Seq<char>, b: Seq<char>, c: Seq<char>)
    ensures
        !text_before(a, a),
        a == b || text_before(a, b) || text_before(b, a),
        text_before(a, b) && text_before(b, c) ==> text_before(a, c),
    decreases a.len(),
{
    if a.len() > 0 {
        law_texts_are_ordered(a.skip(1), b.skip(1), c.skip(1));
        if b.len() > 0 && a[0] == b[0] && a.skip(1) == b.skip(1) {
            assert(a =~= b) by {
                assert forall|k: int| 0 <= k < a.len() implies a[k] == b[k] by {
                    if k > 0 {
                        assert(a[k] == a.skip(1)[k - 1]);
                        assert(b[k] == b.skip(1)[k - 1]);
                    }
                }
                assert(a.len() == a.skip(1).len() + 1);
                assert(b.len() == b.skip(1).len() + 1);
            }
        }
    } else if b.len() == 0 {
        assert(a =~= b);
    }
}

impl Registry {
    pub fn new() -> (r: Registry)
        ensures
            r@ == Seq::<RegistrationModel>::empty(),
            registry_wf(r@),
    {
        let r = Registry { entries: Vec::new() };
        assert(r@ =~= Seq::<RegistrationModel>::empty());
        r
    }

    /// Where an id stands; the number of registrations if it does not.
    fn find(&self, id: &str) -> (r: usize)
        ensures
            r <= self@.len(),
            r < self@.len() ==> self@[r as int].id == id@,
            r == self@.len() ==> !has_id(self@, id@),
    {
        let mut i: usize = 0;
        while i < self.entries.len()
            invariant
                i <= self.entries@.len(),
                self@.len() == self.entries@.len(),
                forall|j: int| 0 <= j < i ==> (#[trigger] self@[j]).id != id@,
            decreases self.entries@.len() - i,
        {
            if text::same_text(self.entries[i].id.as_str(), id) {
                return i;
            }
            i += 1;
        }
        i
    }

    /// Registers a database. Refused if its id is taken, or its file is,
    /// under any id. `path` is the file as it was given.
    pub fn register(&mut self, id: &str, path: &str, canonical: &str) -> (r: Result<(), Error>)
        requires
            registry_wf(old(self)@),
        ensures
            registry_wf(final(self)@),
            has_id(old(self)@, id@) ==> {
                &&& final(self)@ == old(self)@
                &&& r matches Err(Error::Other(m)) && m@ == duplicate_id_text(id@)
            },
            !has_id(old(self)@, id@) ==> forall|i: int|
                0 <= i < old(self)@.len() && (#[trigger] old(self)@[i]).canonical == canonical@ ==> {
                    &&& final(self)@ == old(self)@
                    &&& r matches Err(Error::Other(m)) && m@ == duplicate_path_text(
                        path@,
                        old(self)@[i].id,
                    )
                },
            !has_id(old(self)@, id@) && (forall|i: int|
                0 <= i < old(self)@.len() ==> (#[trigger] old(self)@[i]).canonical != canonical@)
                ==> {
                &&& r is Ok
                &&& exists|k: int|
                    0 <= k <= old(self)@.len() && final(self)@ == #[trigger] old(self)@.insert(
                        k,
                        RegistrationModel { id: id@, canonical: canonical@ },
                    )
            },
    {
        let ghost before = self@;
        if self.find(id) < self.entries.len() {
            let mut m = "db id already registered: ".to_owned();
            m.append(text::quoted(id).as_str());
            return Err(Error::Other(m));
        }
        let mut i: usize = 0;
        while i < self.entries.len()
            invariant
                i <= self.entries@.len(),
                self@ == before,
                self@.len() == self.entries@.len(),
                registry_wf(before),
                !has_id(before, id@),
                forall|j: int| 0 <= j < i ==> (#[trigger] before[j]).canonical != canonical@,
            decreases self.entries@.len() - i,
        {
            if text::same_text(self.entries[i].canonical.as_str(), canonical) {
                let mut m = "db path ".to_owned();
                m.append(text::quoted(path).as_str());
                m.append(" already registered as ");
                m.append(text::quoted(self.entries[i].id.as_str()).as_str());
                assert(before[i as int].canonical == canonical@);
                return Err(Error::Other(m));
            }
            assert(before[i as int].canonical != canonical@);
            i += 1;
        }
        let mut k: usize = 0;
        while k < self.entries.len() && comes_before(self.entries[k].id.as_str(), id)
            invariant
                k <= self.entries@.len(),
                self@ == before,
                self@.len() == self.entries@.len(),
                forall|j: int| 0 <= j < k ==> text_before((#[trigger] before[j]).id, id@),
            decreases self.entries@.len() - k,
        {
            assert(before[k as int].id == self.entries@[k as int].id@);
            k += 1;
        }
        let ghost new = RegistrationModel { id: id@, canonical: canonical@ };
        proof {
            assert forall|j: int| k <= j < before.len() implies text_before(
                id@,
                (#[trigger] before[j]).id,
            ) by {
                assert(before[k as int].id == self.entries@[k as int].id@);
                law_texts_are_ordered(id@, before[k as int].id, before[j].id);
                if j > k {
                    assert(text_before(before[k as int].id, before[j].id));
                }
            }
        }
        let ghost old_entries = self.entries@;
        self.entries.insert(
            k,
            Registration { id: id.to_owned(), canonical: canonical.to_owned() },
        );
        proof {
            let after = before.insert(k as int, new);
            assert(self@ =~= after);
            assert forall|i: int, j: int| 0 <= i < j < after.len() implies text_before(
                (#[trigger] after[i]).id,
                (#[trigger] after[j]).id,
            ) && after[i].canonical != after[j].canonical by {
                let oi = if i < k {
                    i
                } else {
                    i - 1
                };
                let oj = if j < k {
                    j
                } else {
                    j - 1
                };
                if i != k {
                    assert(after[i] == before[oi]);
                }
                if j != k {
                    assert(after[j] == before[oj]);
                }
                if i != k && j != k {
                    assert(text_before(before[oi].id, before[oj].id));
                }
            }
        }
        Ok(())
    }

    /// Whether an id is registered.
    pub fn get(&self, id: &str) -> (r: Result<(), Error>)
        ensures
            has_id(self@, id@) ==> r is Ok,
            !has_id(self@, id@) ==> (r matches Err(Error::Other(m)) && m@ == unknown_id_text(id@)),
    {
        if self.find(id) < self.entries.len() {
            Ok(())
        } else {
            let mut m = "unknown db id: ".to_owned();
            m.append(text::quoted(id).as_str());
            Err(Error::Other(m))
        }
    }

    /// Removes a registration; its id and its file are free again.
    pub fn unregister(&mut self, id: &str) -> (r: Result<(), Error>)
        requires
            registry_wf(old(self)@),
        ensures
            registry_wf(final(self)@),
            !has_id(final(self)@, id@),
            has_id(old(self)@, id@) ==> r is Ok && exists|k: int|
                0 <= k < old(self)@.len() && old(self)@[k].id == id@ && final(self)@ == #[trigger] old(
                    self,
                )@.remove(k),
            !has_id(old(self)@, id@) ==> final(self)@ == old(self)@ && (r matches Err(
                Error::Other(m),
            ) && m@ == unknown_id_text(id@)),
    {
        let ghost before = self@;
        let k = self.find(id);
        if k < self.entries.len() {
            let _gone = self.entries.remove(k);
            proof {
                let after = before.remove(k as int);
                assert(self@ =~= after);
                assert forall|i: int| 0 <= i < after.len() implies (#[trigger] after[i]).id
                    != id@ by {
                    let oi = if i < k {
                        i
                    } else {
                        i + 1
                    };
                    assert(after[i] == before[oi]);
                    law_texts_are_ordered(id@, id@, id@);
                    if oi < k {
                        assert(text_before(before[oi].id, before[k as int].id));
                    } else {
                        assert(text_before(before[k as int].id, before[oi].id));
                    }
                }
                assert forall|i: int, j: int| 0 <= i < j < after.len() implies text_before(
                    (#[trigger] after[i]).id,
                    (#[trigger] after[j]).id,
                ) && after[i].canonical != after[j].canonical by {
                    let oi = if i < k {
                        i
                    } else {
                        i + 1
                    };
                    let oj = if j < k {
                        j
                    } else {
                        j + 1
                    };
                    assert(after[i] == before[oi] && after[j] == before[oj]);
                }
            }
            Ok(())
        } else {
            let mut m = "unknown db id: ".to_owned();
            m.append(text::quoted(id).as_str());
            Err(Error::Other(m))
        }
    }

    /// The registered ids, in order.
    pub fn ids(&self) -> (r: Vec<String>)
        ensures
            r@.len() == self@.len(),
            forall|i: int| 0 <= i < r@.len() ==> (#[trigger] r@[i])@ == self@[i].id,
    {
        let mut out: Vec<String> = Vec::new();
        let mut i: usize = 0;
        while i < self.entries.len()
            invariant
                i <= self.entries@.len(),
                self@.len() == self.entries@.len(),
                out@.len() == i,
                forall|j: int| 0 <= j < i ==> (#[trigger] out@[j])@ == self@[j].id,
            decreases self.entries@.len() - i,
        {
            out.push(self.entries[i].id.as_str().to_owned());
            i += 1;
        }
        out
    }
}

} // verus!
