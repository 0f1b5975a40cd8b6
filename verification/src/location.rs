//! Where the control file of a core lies, and how the core's index is read
//! out of a directory name or out of the path of a control file.

use crate::numeral::{is_digit, lemma_numerals, parse_decimal, parse_number, NumeralFault};
use crate::sorting::Keyed;
use vstd::prelude::*;

verus! {

/// The control file of a core, below the directory of that core.
pub open spec fn control_file() -> Seq<char> {
    "cpufreq/energy_performance_preference"@
}

/// The index of the last `/` of `s`, or -1 where it has none.
pub open spec fn last_slash(s: Seq<char>) -> int
    decreases s.len(),
{
    if s.len() == 0 {
        -1
    } else if s.last() == '/' {
        s.len() - 1
    } else {
        last_slash(s.drop_last())
    }
}

/// The path without its last component: what stands before the last `/`.
/// A path without a `/` has no parent.
pub open spec fn parent(path: Seq<char>) -> Option<Seq<char>> {
    if last_slash(path) < 0 {
        None
    } else {
        Some(path.take(last_slash(path)))
    }
}

/// The last component of a path: what stands after the last `/`.
pub open spec fn file_name(path: Seq<char>) -> Seq<char> {
    path.skip(last_slash(path) + 1)
}

/// The name of the directory of the core that a control file belongs to:
/// the third component from the end of its path.
pub open spec fn core_dir_name(path: Seq<char>) -> Option<Seq<char>> {
    match parent(path) {
        None => None,
        Some(dir) => match parent(dir) {
            None => None,
            Some(core_dir) => Some(file_name(core_dir)),
        },
    }
}

/// Whether `name` begins with `cpu`.
pub open spec fn has_cpu_prefix(name: Seq<char>) -> bool {
    name.len() >= 3 && name[0] == 'c' && name[1] == 'p' && name[2] == 'u'
}

/// What a name says of a core index.
#[derive(Debug, Clone, Copy, PartialEq, Eq, Structural)]
pub enum CoreIndex {
    /// The name does not begin with `cpu`, or there is no name.
    Absent,
    /// The name begins with `cpu`, and what follows is no core index.
    Malformed(NumeralFault),
    /// The name is `cpu` followed by this index.
    Index(u32),
}

/// The core index in the name of a directory: the name is `cpu` followed by
/// one or more decimal digits that write a number of 32 bits.
pub open spec fn name_core_index(name: Seq<char>) -> CoreIndex {
    if !has_cpu_prefix(name) {
        CoreIndex::Absent
    } else {
        match parse_number(name.skip(3)) {
            Ok(index) => CoreIndex::Index(index),
            Err(fault) => CoreIndex::Malformed(fault),
        }
    }
}

/// The core index in the path of a control file: that of the name of the
/// core's directory.
pub open spec fn path_core_index(path: Seq<char>) -> CoreIndex {
    match core_dir_name(path) {
        None => CoreIndex::Absent,
        Some(name) => name_core_index(name),
    }
}

/// `name` below the directory `dir`, with a `/` between them unless `dir` is
/// empty or ends with one.
pub open spec fn join(dir: Seq<char>, name: Seq<char>) -> Seq<char> {
    if dir.len() == 0 || dir.last() == '/' {
        dir + name
    } else {
        dir + seq!['/'] + name
    }
}

/// The path of the control file of the core whose directory is `name`, below
/// the base directory `base`.
pub open spec fn control_path(base: Seq<char>, name: Seq<char>) -> Seq<char> {
    join(join(base, name), control_file())
}

/// Whether `s` holds no `/`.
pub open spec fn no_slash(s: Seq<char>) -> bool {
    forall|i: int| 0 <= i < s.len() ==> #[trigger] s[i] != '/'
}

/// What follows the last `/` of a path does not move that `/`.
pub proof fn lemma_last_slash_before(head: Seq<char>, tail: Seq<char>)
    requires
        no_slash(tail),
    ensures
        last_slash(head + tail) == last_slash(head),
    decreases tail.len(),
{
    if tail.len() == 0 {
        assert(head + tail =~= head);
    } else {
        let front = tail.drop_last();
        assert((head + tail).last() == tail[tail.len() - 1]);
        assert((head + tail).drop_last() =~= head + front);
        assert forall|i: int| 0 <= i < front.len() implies #[trigger] front[i] != '/' by {
            assert(front[i] == tail[i]);
        }
        lemma_last_slash_before(head, front);
    }
}

/// The name of a core's directory holds no `/`.
pub proof fn lemma_core_name_has_no_slash(name: Seq<char>)
    requires
        name_core_index(name) is Index,
    ensures
        no_slash(name),
        name.len() > 3,
{
    let digits = name.skip(3);
    lemma_numerals(digits);
    assert forall|i: int| 0 <= i < name.len() implies #[trigger] name[i] != '/' by {
        if i >= 3 {
            assert(name[i] == digits[i - 3]);
            assert(is_digit(digits[i - 3]));
        }
    }
}

/// A path that is made for a directory name gives that name back: the path
/// that discovery records for a core says the index of that core.
pub proof fn lemma_control_path_core_index(base: Seq<char>, name: Seq<char>)
    requires
        name_core_index(name) is Index,
    ensures
        core_dir_name(control_path(base, name)) == Some(name),
        path_core_index(control_path(base, name)) == name_core_index(name),
{
    reveal_strlit("cpufreq/energy_performance_preference");
    lemma_core_name_has_no_slash(name);
    let lit = control_file();
    let subdir = lit.take(7);
    let leaf = lit.skip(8);
    let root = if base.len() == 0 || base.last() == '/' {
        base
    } else {
        base + seq!['/']
    };
    let core_dir = root + name;
    assert(join(base, name) =~= core_dir);
    assert(core_dir.last() == name[name.len() - 1]);
    let dir = core_dir + seq!['/'] + subdir;
    let path = control_path(base, name);
    assert(path =~= (dir + seq!['/']) + leaf);
    assert(no_slash(leaf));
    assert(no_slash(subdir));
    // the last component is the control file itself
    lemma_last_slash_before(dir + seq!['/'], leaf);
    assert((dir + seq!['/']).last() == '/');
    assert(last_slash(path) == dir.len());
    assert(path.take(dir.len() as int) =~= dir);
    // the one before it is the directory that holds the control file
    assert(dir =~= (core_dir + seq!['/']) + subdir);
    lemma_last_slash_before(core_dir + seq!['/'], subdir);
    assert((core_dir + seq!['/']).last() == '/');
    assert(last_slash(dir) == core_dir.len());
    assert(dir.take(core_dir.len() as int) =~= core_dir);
    // and before that comes the directory of the core
    lemma_last_slash_before(root, name);
    if root.len() > 0 {
        assert(root.last() == '/');
    }
    assert(last_slash(core_dir) == root.len() - 1);
    assert(core_dir.skip(root.len() as int) =~= name);
}

/// Two directory names of cores that give the same path are the same name.
pub proof fn lemma_control_path_tells_names_apart(base: Seq<char>, a: Seq<char>, b: Seq<char>)
    requires
        name_core_index(a) is Index,
        name_core_index(b) is Index,
        control_path(base, a) == control_path(base, b),
    ensures
        a == b,
{
    lemma_control_path_core_index(base, a);
    lemma_control_path_core_index(base, b);
}

/// The index of the last `/` among the first `end` characters of `s`.
fn find_last_slash(s: &str, end: usize) -> (found: Option<usize>)
    requires
        end <= s@.len(),
    ensures
        match found {
            Some(i) => i < end && i == last_slash(s@.take(end as int)),
            None => last_slash(s@.take(end as int)) == -1,
        },
{
    let mut i: usize = end;
    while i > 0
        invariant
            i <= end <= s@.len(),
            last_slash(s@.take(end as int)) == last_slash(s@.take(i as int)),
        decreases i,
    {
        let c: char = s.get_char(i - 1);
        proof {
            assert(s@.take(i as int).last() == c);
            assert(s@.take(i as int).drop_last() =~= s@.take(i as int - 1));
        }
        if c == '/' {
            return Some(i - 1);
        }
        i = i - 1;
    }
    None
}

/// Reads the core index in the name of a directory.
pub fn core_index_of_name(name: &str) -> (index: CoreIndex)
    ensures
        index == name_core_index(name@),
{
    let n: usize = name.unicode_len();
    if n < 3 || name.get_char(0) != 'c' || name.get_char(1) != 'p' || name.get_char(2) != 'u' {
        return CoreIndex::Absent;
    }
    proof {
        assert(name@.subrange(3, n as int) =~= name@.skip(3));
    }
    match parse_decimal(name.substring_char(3, n)) {
        Ok(index) => CoreIndex::Index(index),
        Err(fault) => CoreIndex::Malformed(fault),
    }
}

/// Reads the core index in the path of a control file.
pub fn core_index_of_path(path: &str) -> (index: CoreIndex)
    ensures
        index == path_core_index(path@),
{
    let n: usize = path.unicode_len();
    proof {
        assert(path@.take(n as int) =~= path@);
    }
    let file_at: usize = match find_last_slash(path, n) {
        Some(i) => i,
        None => { return CoreIndex::Absent; },
    };
    let ghost dir: Seq<char> = path@.take(file_at as int);
    let dir_at: usize = match find_last_slash(path, file_at) {
        Some(i) => i,
        None => { return CoreIndex::Absent; },
    };
    let ghost core_dir: Seq<char> = dir.take(dir_at as int);
    proof {
        assert(core_dir =~= path@.take(dir_at as int));
    }
    let name_at: usize = match find_last_slash(path, dir_at) {
        Some(i) => i + 1,
        None => 0,
    };
    proof {
        assert(file_name(core_dir) =~= path@.subrange(name_at as int, dir_at as int));
    }
    core_index_of_name(path.substring_char(name_at, dir_at))
}

/// Builds the path of the control file of the core whose directory is `name`.
pub fn control_file_path(base: &str, name: &str) -> (path: String)
    ensures
        path@ == control_path(base@, name@),
{
    let mut path: String = String::from_str(base);
    push_component(&mut path, name);
    push_component(&mut path, "cpufreq/energy_performance_preference");
    path
}

/// Appends a component to a path.
fn push_component(path: &mut String, name: &str)
    ensures
        final(path)@ == join(old(path)@, name@),
{
    let n: usize = path.as_str().unicode_len();
    if n > 0 && path.as_str().get_char(n - 1) != '/' {
        path.append("/");
        proof {
            reveal_strlit("/");
            assert("/"@ =~= seq!['/']);
        }
    }
    path.append(name);
}

/// One core's control file.
#[derive(Debug, Clone, PartialEq, Eq)]
pub struct ControlLocation {
    /// The index of the core.
    pub index: u32,
    /// The path of the control file.
    pub path: String,
}

/// A location as a mathematical value.
pub struct Location {
    pub index: u32,
    pub path: Seq<char>,
}

impl View for ControlLocation {
    type V = Location;

    open spec fn view(&self) -> Location {
        Location { index: self.index, path: self.path@ }
    }
}

/// The paths of a list of locations.
pub open spec fn paths_of(locations: Seq<Location>) -> Seq<Seq<char>> {
    locations.map_values(|l: Location| l.path)
}

impl Keyed for ControlLocation {
    /// Locations are ordered by path.
    open spec fn key_of(v: Location) -> Seq<char> {
        v.path
    }

    fn key(&self) -> (k: &str) {
        self.path.as_str()
    }
}

} // verus!
