use vstd::prelude::*;

verus! {

/// What `str::trim` leaves of a text.
pub uninterp spec fn trimmed(s: Seq<char>) -> Seq<char>;

/// Relies on `str::trim`: the text without its leading and trailing
/// whitespace, which depends on the text alone.
#[verifier::external_body]
pub(crate) fn trim(s: &str) -> (r: String)
    ensures
        r@ == trimmed(s@),
{
    s.trim().to_string()
}

/// A department and its employees, as the directory lists them.
pub type Entry = (Seq<char>, Seq<Seq<char>>);

/// The texts of a list of strings.
pub open spec fn string_views(s: Seq<String>) -> Seq<Seq<char>> {
    s.map_values(|x: String| x@)
}

/// The texts of a list of departments with their employees.
pub open spec fn listing(s: Seq<(String, Vec<String>)>) -> Seq<Entry> {
    s.map_values(|d: (String, Vec<String>)| (d.0@, string_views(d.1@)))
}

/// No two entries name the same department.
pub open spec fn keys_unique(e: Seq<Entry>) -> bool {
    forall|i: int, j: int| 0 <= i < j < e.len() ==> (#[trigger] e[i]).0 != (#[trigger] e[j]).0
}

/// Every entry lists at least one employee.
pub open spec fn lists_nonempty(e: Seq<Entry>) -> bool {
    forall|i: int| 0 <= i < e.len() ==> (#[trigger] e[i]).1.len() > 0
}

/// `k` names the department of some entry.
pub open spec fn has_key(e: Seq<Entry>, k: Seq<char>) -> bool {
    exists|i: int| 0 <= i < e.len() && (#[trigger] e[i]).0 == k
}

/// The mapping from department to employees that a list of entries stands for.
pub open spec fn map_of(e: Seq<Entry>) -> Map<Seq<char>, Seq<Seq<char>>> {
    Map::new(
        |k: Seq<char>| has_key(e, k),
        |k: Seq<char>| e[choose|i: int| 0 <= i < e.len() && (#[trigger] e[i]).0 == k].1,
    )
}

/// The directory after `name` joins `department`: appended to its list, or
/// the first of a new list.
pub open spec fn add_step(
    m: Map<Seq<char>, Seq<Seq<char>>>,
    department: Seq<char>,
    name: Seq<char>,
) -> Map<Seq<char>, Seq<Seq<char>>> {
    if m.contains_key(department) {
        m.insert(department, m[department].push(name))
    } else {
        m.insert(department, seq![name])
    }
}

/// The entry at `i` is what the mapping holds for its department.
proof fn lemma_map_of_at(e: Seq<Entry>, i: int)
    requires
        keys_unique(e),
        0 <= i < e.len(),
    ensures
        map_of(e).contains_key(e[i].0),
        map_of(e)[e[i].0] == e[i].1,
{
    let k = e[i].0;
    assert(has_key(e, k));
    let j = choose|j: int| 0 <= j < e.len() && (#[trigger] e[j]).0 == k;
    assert(j == i);
}

/// Replacing the list of the entry at `i` replaces what the mapping holds for
/// its department.
proof fn lemma_map_of_update(e: Seq<Entry>, i: int, v: Seq<Seq<char>>)
    requires
        keys_unique(e),
        0 <= i < e.len(),
    ensures
        keys_unique(e.update(i, (e[i].0, v))),
        map_of(e.update(i, (e[i].0, v))) == map_of(e).insert(e[i].0, v),
{
    let f = e.update(i, (e[i].0, v));
    assert(keys_unique(f));
    assert forall|k: Seq<char>| has_key(f, k) <==> has_key(e, k) by {
        if has_key(e, k) {
            let j = choose|j: int| 0 <= j < e.len() && (#[trigger] e[j]).0 == k;
            assert(f[j].0 == k);
        }
        if has_key(f, k) {
            let j = choose|j: int| 0 <= j < f.len() && (#[trigger] f[j]).0 == k;
            assert(e[j].0 == k);
        }
    }
    assert forall|k: Seq<char>| #[trigger] map_of(f).contains_key(k) implies map_of(f)[k] == map_of(
        e,
    ).insert(e[i].0, v)[k] by {
        let j = choose|j: int| 0 <= j < f.len() && (#[trigger] f[j]).0 == k;
        lemma_map_of_at(f, j);
        lemma_map_of_at(e, j);
    }
    assert(map_of(f) =~= map_of(e).insert(e[i].0, v));
}

/// A new department at the end adds its list to the mapping.
proof fn lemma_map_of_push(e: Seq<Entry>, k: Seq<char>, v: Seq<Seq<char>>)
    requires
        keys_unique(e),
        !has_key(e, k),
    ensures
        keys_unique(e.push((k, v))),
        map_of(e.push((k, v))) == map_of(e).insert(k, v),
{
    let f = e.push((k, v));
    assert(keys_unique(f)) by {
        assert forall|i: int, j: int| 0 <= i < j < f.len() implies (#[trigger] f[i]).0 != (
        #[trigger] f[j]).0 by {
            if j == e.len() {
                assert(f[i] == e[i]);
            } else {
                assert(f[i] == e[i] && f[j] == e[j]);
            }
        }
    }
    assert forall|kk: Seq<char>| has_key(f, kk) <==> (has_key(e, kk) || kk == k) by {
        if has_key(e, kk) {
            let j = choose|j: int| 0 <= j < e.len() && (#[trigger] e[j]).0 == kk;
            assert(f[j].0 == kk);
        }
        if has_key(f, kk) && kk != k {
            let j = choose|j: int| 0 <= j < f.len() && (#[trigger] f[j]).0 == kk;
            assert(e[j].0 == kk);
        }
        if kk == k {
            assert(f[e.len() as int].0 == k);
        }
    }
    assert forall|kk: Seq<char>| #[trigger] map_of(f).contains_key(kk) implies map_of(f)[kk]
        == map_of(e).insert(k, v)[kk] by {
        let j = choose|j: int| 0 <= j < f.len() && (#[trigger] f[j]).0 == kk;
        lemma_map_of_at(f, j);
        if j < e.len() {
            lemma_map_of_at(e, j);
        }
    }
    assert(map_of(f) =~= map_of(e).insert(k, v));
}

/// Employees by department. Each department lists its employees in the order
/// they were added; a department exists only once someone has joined it.
pub struct Directory {
    departments: Vec<(String, Vec<String>)>,
}

impl Directory {
    /// The departments with their employees, in the order the departments
    /// were first added to.
    pub closed spec fn entries(&self) -> Seq<Entry> {
        listing(self.departments@)
    }

    /// No department is listed twice, and none without an employee.
    pub closed spec fn wf(&self) -> bool {
        &&& keys_unique(self.entries())
        &&& lists_nonempty(self.entries())
    }
}

impl View for Directory {
    type V = Map<Seq<char>, Seq<Seq<char>>>;

    closed spec fn view(&self) -> Map<Seq<char>, Seq<Seq<char>>> {
        map_of(self.entries())
    }
}

impl Directory {
    /// A directory with no department.
    pub fn new() -> (r: Directory)
        ensures
            r.wf(),
            r@ == Map::<Seq<char>, Seq<Seq<char>>>::empty(),
    {
        let r = Directory { departments: Vec::new() };
        assert(r@ =~= Map::<Seq<char>, Seq<Seq<char>>>::empty());
        r
    }

    /// Adds `name` at the end of the list of `department`, which is created
    /// with `name` alone if it has no list yet. Both are taken as they are.
    pub fn append(&mut self, department: String, name: String)
        requires
            old(self).wf(),
        ensures
            final(self).wf(),
            final(self)@ == add_step(old(self)@, department@, name@),
    {
        let ghost e = self.entries();
        let ghost deps = self.departments@;
        let ghost dv = department@;
        let ghost nv = name@;
        let mut i: usize = 0;
        while i < self.departments.len()
            invariant
                i <= self.departments.len(),
                self.entries() == e,
                self.departments@ == deps,
                deps.len() == e.len(),
                dv == department@,
                nv == name@,
                e == old(self).entries(),
                keys_unique(e),
                lists_nonempty(e),
                forall|j: int| 0 <= j < i ==> (#[trigger] e[j]).0 != department@,
            decreases self.departments.len() - i,
        {
            if self.departments[i].0 == department {
                assert(e[i as int].0 == department@);
                let (d, mut names) = self.departments.remove(i);
                assert((d, names) == deps[i as int]);
                let ghost before = names@;
                names.push(name);
                self.departments.insert(i, (d, names));
                proof {
                    let v = e[i as int].1.push(nv);
                    assert(d == deps[i as int].0);
                    assert(names@ == before.push(name));
                    assert(e[i as int].1 == string_views(before));
                    assert(string_views(names@) =~= v);
                    assert(self.departments@ =~= deps.update(i as int, (d, names)));
                    assert(self.entries() =~= e.update(i as int, (e[i as int].0, v)));
                    lemma_map_of_update(e, i as int, v);
                    lemma_map_of_at(e, i as int);
                    assert(lists_nonempty(self.entries()));
                    assert(map_of(e).contains_key(dv));
                    assert(self@ == add_step(map_of(e), dv, nv));
                }
                return;
            }
            i = i + 1;
        }
        proof {
            assert(!has_key(e, department@));
        }
        let names = vec![name];
        self.departments.push((department, names));
        proof {
            let last = self.departments@.last();
            assert(self.departments@ =~= deps.push(last));
            assert(string_views(last.1@) =~= seq![nv]);
            assert(self.entries() =~= e.push((dv, seq![nv])));
            lemma_map_of_push(e, dv, seq![nv]);
            assert(lists_nonempty(self.entries()));
        }
    }

    /// Adds `name` to `department`, each with its surrounding whitespace
    /// trimmed. Empty texts are accepted like any other.
    pub fn add(&mut self, department: &str, name: &str)
        requires
            old(self).wf(),
        ensures
            final(self).wf(),
            final(self)@ == add_step(old(self)@, trimmed(department@), trimmed(name@)),
    {
        let department = trim(department);
        let name = trim(name);
        self.append(department, name);
    }

    /// The employees of the department named exactly `department`, in the
    /// order they were added, or `None` where no one has joined it.
    pub fn list_department(&self, department: &str) -> (r: Option<&Vec<String>>)
        requires
            self.wf(),
        ensures
            r.is_some() <==> self@.contains_key(department@),
            r matches Some(v) ==> string_views(v@) == self@[department@] && v@.len() > 0,
    {
        let key = department.to_owned();
        let mut i: usize = 0;
        while i < self.departments.len()
            invariant
                i <= self.departments.len(),
                self.wf(),
                key@ == department@,
                forall|j: int| 0 <= j < i ==> (#[trigger] self.entries()[j]).0 != department@,
            decreases self.departments.len() - i,
        {
            if self.departments[i].0 == key {
                proof {
                    lemma_map_of_at(self.entries(), i as int);
                }
                return Some(&self.departments[i].1);
            }
            i = i + 1;
        }
        None
    }

    /// Every department with its employees, each department once, in the
    /// order the departments were first added to.
    pub fn list_all(&self) -> (r: &Vec<(String, Vec<String>)>)
        requires
            self.wf(),
        ensures
            keys_unique(listing(r@)),
            forall|i: int|
                0 <= i < r@.len() ==> self@.contains_key(#[trigger] listing(r@)[i].0)
                    && self@[listing(r@)[i].0] == listing(r@)[i].1,
            forall|d: Seq<char>| #[trigger] self@.contains_key(d) ==> has_key(listing(r@), d),
    {
        proof {
            assert forall|i: int| 0 <= i < self.departments@.len() implies self@.contains_key(
                #[trigger] listing(self.departments@)[i].0,
            ) && self@[listing(self.departments@)[i].0] == listing(self.departments@)[i].1 by {
                lemma_map_of_at(self.entries(), i);
            }
        }
        &self.departments
    }
}

/// The directory that adding each (department, name) pair of `pairs`, in
/// order, makes of an empty one.
pub open spec fn after_adding(pairs: Seq<(Seq<char>, Seq<char>)>) -> Map<
    Seq<char>,
    Seq<Seq<char>>,
>
    decreases pairs.len(),
{
    if pairs.len() == 0 {
        Map::empty()
    } else {
        add_step(after_adding(pairs.drop_last()), pairs.last().0, pairs.last().1)
    }
}

/// The names of `pairs` that go to `department`, in the order of `pairs`.
pub open spec fn names_added(pairs: Seq<(Seq<char>, Seq<char>)>, department: Seq<char>) -> Seq<
    Seq<char>,
>
    decreases pairs.len(),
{
    if pairs.len() == 0 {
        Seq::empty()
    } else {
        let rest = names_added(pairs.drop_last(), department);
        if pairs.last().0 == department {
            rest.push(pairs.last().1)
        } else {
            rest
        }
    }
}

/// How many pairs of `pairs` go to `department`.
pub open spec fn times_added(pairs: Seq<(Seq<char>, Seq<char>)>, department: Seq<char>) -> nat
    decreases pairs.len(),
{
    if pairs.len() == 0 {
        0
    } else {
        times_added(pairs.drop_last(), department) + if pairs.last().0 == department {
            1nat
        } else {
            0nat
        }
    }
}

/// After names are added in order, a department is present exactly when some
/// name went to it, and it lists exactly the names that went to it, in the
/// order they were added.
pub proof fn lemma_adding_keeps_order(
    pairs: Seq<(Seq<char>, Seq<char>)>,
    department: Seq<char>,
)
    ensures
        after_adding(pairs).contains_key(department) <==> names_added(pairs, department).len() > 0,
        after_adding(pairs).contains_key(department) ==> after_adding(pairs)[department]
            == names_added(pairs, department),
    decreases pairs.len(),
{
    if pairs.len() > 0 {
        lemma_adding_keeps_order(pairs.drop_last(), department);
    }
}

/// A department to which no name was added is not found: it has no list at
/// all, not an empty one.
pub proof fn lemma_never_added_not_found(
    pairs: Seq<(Seq<char>, Seq<char>)>,
    department: Seq<char>,
)
    requires
        forall|i: int| 0 <= i < pairs.len() ==> (#[trigger] pairs[i]).0 != department,
    ensures
        !after_adding(pairs).contains_key(department),
    decreases pairs.len(),
{
    if pairs.len() > 0 {
        assert forall|i: int| 0 <= i < pairs.drop_last().len() implies (
        #[trigger] pairs.drop_last()[i]).0 != department by {
            assert(pairs.drop_last()[i] == pairs[i]);
        }
        lemma_never_added_not_found(pairs.drop_last(), department);
    }
}

/// Adding appends: after `n` names went to a department, in any order with
/// names for other departments, it lists `n` names.
pub proof fn lemma_adding_appends(pairs: Seq<(Seq<char>, Seq<char>)>, department: Seq<char>)
    requires
        times_added(pairs, department) > 0,
    ensures
        after_adding(pairs).contains_key(department),
        after_adding(pairs)[department].len() == times_added(pairs, department),
{
    lemma_names_added_len(pairs, department);
    lemma_adding_keeps_order(pairs, department);
}

proof fn lemma_names_added_len(pairs: Seq<(Seq<char>, Seq<char>)>, department: Seq<char>)
    ensures
        names_added(pairs, department).len() == times_added(pairs, department),
    decreases pairs.len(),
{
    if pairs.len() > 0 {
        lemma_names_added_len(pairs.drop_last(), department);
    }
}

/// Each department present lists at least one employee, and adding keeps it
/// so.
pub proof fn lemma_add_keeps_lists_nonempty(
    m: Map<Seq<char>, Seq<Seq<char>>>,
    department: Seq<char>,
    name: Seq<char>,
)
    requires
        forall|d: Seq<char>| #[trigger] m.contains_key(d) ==> m[d].len() > 0,
    ensures
        forall|d: Seq<char>| #[trigger] add_step(m, department, name).contains_key(d) ==> add_step(
            m,
            department,
            name,
        )[d].len() > 0,
{
}

} // verus!
