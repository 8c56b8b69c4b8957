//! A company directory: the employees of each department, kept in order of
//! their names, driven by text commands.

use vstd::prelude::*;
use vstd::multiset::Multiset;
use vstd::relations::sorted_by;
use vstd::string::StringExecFns;
use crate::text::{same_text, split_words, words_of};

verus! {

broadcast use vstd::seq_lib::group_to_multiset_ensures;

/// Whether `a` comes no later than `b` in the order of `String`: the first
/// character where they differ decides, and a prefix comes first.
pub open spec fn precedes(a: Seq<char>, b: Seq<char>) -> bool
    decreases a.len(),
{
    if a.len() == 0 {
        true
    } else if b.len() == 0 {
        false
    } else if a[0] != b[0] {
        a[0] < b[0]
    } else {
        precedes(a.drop_first(), b.drop_first())
    }
}

/// The order of names, as a relation for sorting.
pub open spec fn name_order() -> spec_fn(Seq<char>, Seq<char>) -> bool {
    |a: Seq<char>, b: Seq<char>| precedes(a, b)
}

/// The text of each name, in order.
pub open spec fn names(v: Seq<String>) -> Seq<Seq<char>> {
    v.map_values(|s: String| s@)
}

/// The staff of department `d`; none when there is no such department.
pub open spec fn staff_in(m: Map<Seq<char>, Seq<Seq<char>>>, d: Seq<char>) -> Seq<Seq<char>> {
    if m.contains_key(d) {
        m[d]
    } else {
        Seq::empty()
    }
}

/// `after` is `before` with employee `e` added to department `d` (created
/// if it was not there), whose staff stays in order of names.
pub open spec fn added(
    before: Map<Seq<char>, Seq<Seq<char>>>,
    after: Map<Seq<char>, Seq<Seq<char>>>,
    e: Seq<char>,
    d: Seq<char>,
) -> bool {
    &&& after == before.insert(d, after[d])
    &&& sorted_by(after[d], name_order())
    &&& after[d].to_multiset() == staff_in(before, d).to_multiset().insert(e)
}

/// A command `Add <name> to <department>`.
pub open spec fn is_add(w: Seq<Seq<char>>) -> bool {
    w.len() == 4 && w[0] == "Add"@ && w[2] == "to"@
}

/// A command `Show <department>`.
pub open spec fn is_show(w: Seq<Seq<char>>) -> bool {
    w.len() == 2 && w[0] == "Show"@
}

/// Relies on `slice::sort` over `String`, whose order compares the bytes of
/// the UTF-8 text, which is the order of `precedes` on its characters.
#[verifier::external_body]
fn sort_names(v: &mut Vec<String>)
    ensures
        names(final(v)@).to_multiset() == names(old(v)@).to_multiset(),
        sorted_by(names(final(v)@), name_order()),
{
    v.sort()
}

/// Represents the result of parsing and executing a command.
#[derive(PartialEq, Debug)]
pub enum CommandResult {
    /// Indicates a successful addition of an employee.
    Add,
    /// Returns the list of employees in the specified department, if any.
    Show(Option<Vec<String>>),
    /// Returned when a command could not be parsed.
    ParseError(String),
}

#[derive(Debug)]
struct Department {
    name: String,
    staff: Vec<String>,
}

/// Stores, for each department name, its employees.
#[derive(Debug)]
pub struct CompanyDirectory {
    departments: Vec<Department>,
}

spec fn map_of(ds: Seq<Department>) -> Map<Seq<char>, Seq<Seq<char>>>
    decreases ds.len(),
{
    if ds.len() == 0 {
        Map::empty()
    } else {
        map_of(ds.drop_last()).insert(ds.last().name@, names(ds.last().staff@))
    }
}

spec fn unique_names(ds: Seq<Department>) -> bool {
    forall|i: int, j: int| 0 <= i < j < ds.len() ==> ds[i].name@ != ds[j].name@
}

proof fn lemma_map_of_lookup(ds: Seq<Department>, i: int)
    requires
        unique_names(ds),
        0 <= i < ds.len(),
    ensures
        map_of(ds).contains_key(ds[i].name@),
        map_of(ds)[ds[i].name@] == names(ds[i].staff@),
    decreases ds.len(),
{
    if i < ds.len() - 1 {
        lemma_map_of_lookup(ds.drop_last(), i);
    }
}

proof fn lemma_map_of_keys(ds: Seq<Department>, d: Seq<char>)
    requires
        forall|i: int| 0 <= i < ds.len() ==> ds[i].name@ != d,
    ensures
        !map_of(ds).contains_key(d),
    decreases ds.len(),
{
    if ds.len() > 0 {
        lemma_map_of_keys(ds.drop_last(), d);
    }
}

proof fn lemma_map_of_update(ds: Seq<Department>, i: int, x: Department)
    requires
        unique_names(ds),
        0 <= i < ds.len(),
        x.name@ == ds[i].name@,
    ensures
        map_of(ds.update(i, x)) == map_of(ds).insert(x.name@, names(x.staff@)),
    decreases ds.len(),
{
    let u = ds.update(i, x);
    if i == ds.len() - 1 {
        assert(u.drop_last() =~= ds.drop_last());
        assert(map_of(u) =~= map_of(ds).insert(x.name@, names(x.staff@)));
    } else {
        assert(u.drop_last() =~= ds.drop_last().update(i, x));
        lemma_map_of_update(ds.drop_last(), i, x);
        assert(ds.last().name@ != x.name@);
        assert(map_of(u) =~= map_of(ds).insert(x.name@, names(x.staff@)));
    }
}

impl View for CompanyDirectory {
    type V = Map<Seq<char>, Seq<Seq<char>>>;

    /// The staff of each department, by department name.
    closed spec fn view(&self) -> Map<Seq<char>, Seq<Seq<char>>> {
        map_of(self.departments@)
    }
}

/// A copy of the names, in the same order.
fn copy_names(v: &Vec<String>) -> (r: Vec<String>)
    ensures
        names(r@) == names(v@),
{
    let mut r: Vec<String> = Vec::new();
    let mut i: usize = 0;
    while i < v.len()
        invariant
            i <= v.len(),
            names(r@) == names(v@).subrange(0, i as int),
        decreases v.len() - i,
    {
        let s = v[i].clone();
        proof {
            assert(s@ == names(v@)[i as int]);
            assert(names(r@.push(s)) =~= names(r@).push(s@));
            assert(names(v@).subrange(0, i + 1) =~= names(v@).subrange(0, i as int).push(s@));
        }
        r.push(s);
        i = i + 1;
    }
    assert(names(v@).subrange(0, v.len() as int) =~= names(v@));
    r
}

impl CompanyDirectory {
    /// The directory's departments have distinct names.
    pub closed spec fn wf(&self) -> bool {
        unique_names(self.departments@)
    }

    /// Creates a new, empty `CompanyDirectory`.
    pub fn new() -> (r: Self)
        ensures
            r.wf(),
            r@ == Map::<Seq<char>, Seq<Seq<char>>>::empty(),
    {
        CompanyDirectory { departments: Vec::new() }
    }

    /// Where the department named `department` stands, if it exists.
    fn find(&self, department: &str) -> (r: Option<usize>)
        requires
            self.wf(),
        ensures
            r is None <==> !self@.contains_key(department@),
            r matches Some(i) ==> i < self.departments.len() && self.departments@[i as int].name@
                == department@,
    {
        let mut i: usize = 0;
        while i < self.departments.len()
            invariant
                self.wf(),
                i <= self.departments.len(),
                forall|k: int| 0 <= k < i ==> self.departments@[k].name@ != department@,
            decreases self.departments.len() - i,
        {
            if same_text(self.departments[i].name.as_str(), department) {
                proof {
                    lemma_map_of_lookup(self.departments@, i as int);
                }
                return Some(i);
            }
            i = i + 1;
        }
        proof {
            lemma_map_of_keys(self.departments@, department@);
        }
        None
    }

    /// Adds an employee to a department, creating the department if needed.
    /// The employees of a department are kept in order of their names.
    pub fn add_employee(&mut self, employee: &str, department: &str)
        requires
            old(self).wf(),
        ensures
            final(self).wf(),
            added(old(self)@, final(self)@, employee@, department@),
    {
        match self.find(department) {
            Some(i) => {
                let ghost before = self.departments@;
                proof {
                    lemma_map_of_lookup(before, i as int);
                }
                let mut dept = self.departments.remove(i);
                let hire = String::from_str(employee);
                proof {
                    assert(names(dept.staff@.push(hire)) =~= names(dept.staff@).push(employee@));
                }
                dept.staff.push(hire);
                sort_names(&mut dept.staff);
                self.departments.insert(i, dept);
                proof {
                    assert(self.departments@ =~= before.update(i as int, dept));
                    lemma_map_of_update(before, i as int, dept);
                }
            },
            None => {
                let ghost before = self.departments@;
                let mut staff: Vec<String> = Vec::new();
                staff.push(String::from_str(employee));
                let dept = Department { name: String::from_str(department), staff };
                self.departments.push(dept);
                proof {
                    assert(self.departments@.drop_last() =~= before);
                    assert(names(dept.staff@) =~= seq![employee@]);
                    assert(sorted_by(names(dept.staff@), name_order()));
                    assert forall|k: int| 0 <= k < before.len() implies before[k].name@ != department@ by {
                        lemma_map_of_lookup(before, k);
                    }
                    assert(seq![employee@].to_multiset() =~= Multiset::empty().insert(employee@)) by {
                        assert(seq![employee@] =~= Seq::<Seq<char>>::empty().push(employee@));
                    }
                    assert(self.departments@.last() == dept);
                    assert(map_of(self.departments@) =~= map_of(before).insert(department@, seq![employee@]));
                }
            },
        }
    }

    /// A copy of the employees of the department, in order of their names;
    /// `None` if the department doesn't exist.
    pub fn get_department(&self, department: &str) -> (r: Option<Vec<String>>)
        requires
            self.wf(),
        ensures
            r is Some <==> self@.contains_key(department@),
            r matches Some(v) ==> names(v@) == self@[department@],
    {
        match self.find(department) {
            Some(i) => {
                proof {
                    lemma_map_of_lookup(self.departments@, i as int);
                }
                Some(copy_names(&self.departments[i].staff))
            },
            None => None,
        }
    }

    /// Parses a user input string and performs the corresponding action.
    ///
    /// Supported commands, in words separated by whitespace:
    /// - `Add <Name> to <Department>`: adds an employee.
    /// - `Show <Department>`: retrieves the employees of a department.
    ///
    /// Anything else is a parse error and leaves the directory as it is.
    pub fn parse_command(&mut self, input: &str) -> (r: CommandResult)
        requires
            old(self).wf(),
        ensures
            final(self).wf(),
            ({
                let w = words_of(input@);
                &&& is_add(w) ==> r is Add && added(old(self)@, final(self)@, w[1], w[3])
                &&& is_show(w) ==> {
                    &&& final(self)@ == old(self)@
                    &&& r is Show
                    &&& (r->Show_0 is Some <==> old(self)@.contains_key(w[1]))
                    &&& (r->Show_0 matches Some(v) ==> names(v@) == old(self)@[w[1]])
                }
                &&& !is_add(w) && !is_show(w) ==> {
                    &&& final(self)@ == old(self)@
                    &&& r is ParseError
                    &&& r->ParseError_0@ == "Could not interpret command."@
                }
            }),
    {
        let command = split_words(input);
        if command.len() == 4 && same_text(command[0], "Add") && same_text(command[2], "to") {
            self.add_employee(command[1], command[3]);
            CommandResult::Add
        } else if command.len() == 2 && same_text(command[0], "Show") {
            let employees = self.get_department(command[1]);
            CommandResult::Show(employees)
        } else {
            CommandResult::ParseError(String::from_str("Could not interpret command."))
        }
    }
}

impl Default for CompanyDirectory {
    fn default() -> (r: Self)
        ensures
            r.wf(),
            r@ == Map::<Seq<char>, Seq<Seq<char>>>::empty(),
    {
        Self::new()
    }
}

} // verus!
