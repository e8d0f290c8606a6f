use vstd::prelude::*;
use crate::directory::{Directory, add_step, string_views, trimmed, listing, keys_unique, has_key};

verus! {

/// What `str::trim_end` leaves of a text.
pub uninterp spec fn trimmed_end(s: Seq<char>) -> Seq<char>;

/// Relies on `str::trim_end`: the text without its trailing whitespace, which
/// depends on the text alone.
#[verifier::external_body]
fn trim_end(s: &str) -> (r: &str)
    ensures
        r@ == trimmed_end(s@),
{
    s.trim_end()
}

/// An ASCII decimal digit.
pub open spec fn is_digit(c: char) -> bool {
    '0' <= c <= '9'
}

/// The number that a string of decimal digits writes.
pub open spec fn digits_value(s: Seq<char>) -> nat
    decreases s.len(),
{
    if s.len() == 0 {
        0
    } else {
        digits_value(s.drop_last()) * 10 + (s.last() as nat - '0' as nat) as nat
    }
}

/// The digits of a number, once an optional leading `+` is set aside.
pub open spec fn unsigned_digits(s: Seq<char>) -> Seq<char> {
    if s.len() > 0 && s[0] == '+' {
        s.drop_first()
    } else {
        s
    }
}

/// The byte that `s` writes in decimal: an optional `+`, then at least one
/// digit, for a value of at most 255. Anything else writes none.
pub open spec fn decimal_u8(s: Seq<char>) -> Option<u8> {
    let d = unsigned_digits(s);
    if d.len() > 0 && (forall|i: int| 0 <= i < d.len() ==> is_digit(#[trigger] d[i]))
        && digits_value(d) <= 255 {
        Some(digits_value(d) as u8)
    } else {
        None
    }
}

/// A longer string of digits is worth no less than its prefix.
proof fn lemma_digits_prefix(s: Seq<char>, k: int)
    requires
        0 <= k <= s.len(),
        forall|i: int| 0 <= i < s.len() ==> is_digit(#[trigger] s[i]),
    ensures
        digits_value(s.subrange(0, k)) <= digits_value(s),
    decreases s.len(),
{
    if k < s.len() {
        let p = s.drop_last();
        assert forall|i: int| 0 <= i < p.len() implies is_digit(#[trigger] p[i]) by {
            assert(p[i] == s[i]);
        }
        lemma_digits_prefix(p, k);
        assert(p.subrange(0, k) == s.subrange(0, k));
    } else {
        assert(s.subrange(0, k) == s);
    }
}

/// Reads a byte written in decimal, as `decimal_u8` describes.
pub fn parse_u8(text: &str) -> (r: Option<u8>)
    ensures
        r == decimal_u8(text@),
{
    let n = text.unicode_len();
    let mut start: usize = 0;
    if n > 0 && text.get_char(0) == '+' {
        start = 1;
    }
    let ghost d = unsigned_digits(text@);
    assert(d == text@.subrange(start as int, n as int));
    if start == n {
        return None;
    }
    let mut value: u32 = 0;
    let mut i: usize = start;
    while i < n
        invariant
            start <= i <= n,
            n == text@.len(),
            d == text@.subrange(start as int, n as int),
            d == unsigned_digits(text@),
            d.len() > 0,
            value <= 255,
            value == digits_value(d.subrange(0, i - start)),
            forall|j: int| 0 <= j < i - start ==> is_digit(#[trigger] d[j]),
        decreases n - i,
    {
        let c = text.get_char(i);
        assert(c == d[i - start]);
        if !('0' <= c && c <= '9') {
            assert(!is_digit(d[i - start]));
            return None;
        }
        assert(d.subrange(0, i - start + 1).drop_last() == d.subrange(0, i - start));
        assert(d.subrange(0, i - start + 1).last() == c);
        value = value * 10 + (c as u32 - '0' as u32);
        assert(value == digits_value(d.subrange(0, i - start + 1)));
        if value > 255 {
            proof {
                if forall|j: int| 0 <= j < d.len() ==> is_digit(#[trigger] d[j]) {
                    lemma_digits_prefix(d, i - start + 1);
                }
            }
            return None;
        }
        i = i + 1;
    }
    assert(d.subrange(0, n - start) == d);
    Some(value as u8)
}

/// What the program does once a menu line is read.
#[derive(Debug, Clone, Copy, PartialEq, Eq)]
pub enum Action {
    /// Ask for an employee and a department, and add the one to the other.
    AddEmployee,
    /// Ask for a department and show its employees.
    SeeDepartment,
    /// Show every department with its employees.
    SeeAll,
    /// Leave the menu.
    Exit,
    /// The line held a number that names no option.
    InvalidOption,
    /// The line held no number.
    NotANumber,
}

/// The selection that a menu line makes, if it holds a number.
pub open spec fn selection_of(line: Seq<char>) -> Option<u8> {
    decimal_u8(trimmed_end(line))
}

/// The action for a selection, or for a line that held no number.
pub open spec fn action_for(selection: Option<u8>) -> Action {
    match selection {
        Some(k) => if k == 1 {
            Action::AddEmployee
        } else if k == 2 {
            Action::SeeDepartment
        } else if k == 3 {
            Action::SeeAll
        } else if k == 4 {
            Action::Exit
        } else {
            Action::InvalidOption
        },
        None => Action::NotANumber,
    }
}

/// Reads a menu line: the number it holds, once trailing whitespace is
/// removed, or `None`.
pub fn parse_selection(line: &str) -> (r: Option<u8>)
    ensures
        r == selection_of(line@),
{
    parse_u8(trim_end(line))
}

/// The action for a selection, or for a line that held no number.
pub fn action(selection: Option<u8>) -> (r: Action)
    ensures
        r == action_for(selection),
{
    match selection {
        Some(1) => Action::AddEmployee,
        Some(2) => Action::SeeDepartment,
        Some(3) => Action::SeeAll,
        Some(4) => Action::Exit,
        Some(_) => Action::InvalidOption,
        None => Action::NotANumber,
    }
}

/// The state of the menu: the directory it works on, and the last number
/// selected. The menu runs until that number is 4.
pub struct Session {
    database: Directory,
    option: u8,
}

impl Session {
    /// The directory the menu works on.
    pub closed spec fn directory(&self) -> Map<Seq<char>, Seq<Seq<char>>> {
        self.database@
    }

    /// The last number selected.
    pub closed spec fn selection(&self) -> u8 {
        self.option
    }

    /// The directory is well formed.
    pub closed spec fn wf(&self) -> bool {
        self.database.wf()
    }

    /// The menu has not been left.
    pub open spec fn running(&self) -> bool {
        self.selection() != 4
    }

    /// A running menu on an empty directory.
    pub fn new() -> (r: Session)
        ensures
            r.wf(),
            r.running(),
            r.directory() == Map::<Seq<char>, Seq<Seq<char>>>::empty(),
    {
        Session { database: Directory::new(), option: 0 }
    }

    /// Whether the menu is still running.
    pub fn is_running(&self) -> (r: bool)
        ensures
            r == self.running(),
    {
        self.option != 4
    }

    /// The directory the menu works on.
    pub fn database(&self) -> (r: &Directory)
        ensures
            r@ == self.directory(),
            self.wf() ==> r.wf(),
    {
        &self.database
    }

    /// Takes a menu line and says what to do. A number becomes the
    /// selection; a line without one leaves the selection as it was. The
    /// directory never changes here; only 4 leaves the menu.
    pub fn select(&mut self, line: &str) -> (r: Action)
        requires
            old(self).wf(),
        ensures
            final(self).wf(),
            r == action_for(selection_of(line@)),
            final(self).directory() == old(self).directory(),
            final(self).selection() == match selection_of(line@) {
                Some(k) => k,
                None => old(self).selection(),
            },
            r == Action::Exit ==> !final(self).running(),
            r == Action::InvalidOption ==> final(self).running(),
            r == Action::NotANumber ==> final(self).running() == old(self).running(),
    {
        let parsed = parse_selection(line);
        if let Some(k) = parsed {
            self.option = k;
        }
        action(parsed)
    }

    /// Adds an employee read from `name` to the department read from
    /// `department`, each with its surrounding whitespace trimmed.
    pub fn add_employee(&mut self, name: &str, department: &str)
        requires
            old(self).wf(),
        ensures
            final(self).wf(),
            final(self).selection() == old(self).selection(),
            final(self).directory() == add_step(
                old(self).directory(),
                trimmed(department@),
                trimmed(name@),
            ),
    {
        self.database.add(department, name);
    }

    /// The employees of the department read from `department`, with its
    /// surrounding whitespace trimmed, or `None` where there is no such
    /// department.
    pub fn see_department(&self, department: &str) -> (r: Option<&Vec<String>>)
        requires
            self.wf(),
        ensures
            r.is_some() <==> self.directory().contains_key(trimmed(department@)),
            r matches Some(v) ==> string_views(v@) == self.directory()[trimmed(department@)]
                && v@.len() > 0,
    {
        let key = crate::directory::trim(department);
        self.database.list_department(key.as_str())
    }

    /// Every department with its employees, each department once.
    pub fn see_all(&self) -> (r: &Vec<(String, Vec<String>)>)
        requires
            self.wf(),
        ensures
            keys_unique(listing(r@)),
            forall|i: int|
                0 <= i < r@.len() ==> self.directory().contains_key(#[trigger] listing(r@)[i].0)
                    && self.directory()[listing(r@)[i].0] == listing(r@)[i].1,
            forall|d: Seq<char>| #[trigger]
                self.directory().contains_key(d) ==> has_key(listing(r@), d),
    {
        self.database.list_all()
    }
}

} // verus!
