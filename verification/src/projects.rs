//! Projects on disk: their ids, the order of the launcher's project list,
//! and the rules the file operations follow (which error wins, what is
//! undone when opening a project fails part-way).
use vstd::prelude::*;
use crate::text::{text_eq, text_less, text_lt};

verus! {

/// A character allowed in a project id: an ASCII letter or digit, `_` or `-`.
pub open spec fn id_char(c: char) -> bool {
    ('0' <= c && c <= '9') || ('a' <= c && c <= 'z') || ('A' <= c && c <= 'Z') || c == '_' || c == '-'
}

/// A valid project id: non-empty, of allowed characters only.
pub open spec fn valid_id(s: Seq<char>) -> bool {
    s.len() > 0 && forall|i: int| 0 <= i < s.len() ==> id_char(#[trigger] s[i])
}

/// Why a project operation failed. `P` is the project an operation hands
/// back when the project turns out to be open elsewhere.
#[derive(Debug)]
pub enum ProjectError<P> {
    /// The project's data file is locked (the project is open elsewhere);
    /// the project is handed back.
    Locked(P),
    /// A saved file does not hold what it should.
    BadSerializedData,
    /// Another project has the same id.
    DuplicateId,
    /// The text is not a project id.
    InvalidIdString,
    /// A file operation failed.
    IoError(String),
}

/// The id of a project: the name of its directory.
#[derive(Debug)]
pub struct ProjectId {
    id: String,
}

impl View for ProjectId {
    type V = Seq<char>;

    closed spec fn view(&self) -> Seq<char> {
        self.id@
    }
}

impl ProjectId {
    #[verifier::type_invariant]
    spec fn inv(self) -> bool {
        valid_id(self.id@)
    }

    /// The id `text` names, if it is one.
    pub fn try_from_text<P>(text: &str) -> (r: Result<ProjectId, ProjectError<P>>)
        ensures
            valid_id(text@) ==> (r matches Ok(id) && id@ == text@),
            !valid_id(text@) ==> r matches Err(ProjectError::InvalidIdString),
    {
        let chars = crate::text::chars_of(text);
        if chars.len() == 0 {
            return Err(ProjectError::InvalidIdString);
        }
        let mut i: usize = 0;
        while i < chars.len()
            invariant
                chars@ == text@,
                i <= chars@.len(),
                forall|j: int| 0 <= j < i ==> id_char(#[trigger] chars@[j]),
            decreases chars.len() - i,
        {
            let c = chars[i];
            if !(('0' <= c && c <= '9') || ('a' <= c && c <= 'z') || ('A' <= c && c <= 'Z') || c == '_' || c == '-') {
                assert(!id_char(text@[i as int]));
                return Err(ProjectError::InvalidIdString);
            }
            i = i + 1;
        }
        Ok(ProjectId { id: String::from_str(text) })
    }

    /// The id as text.
    pub fn as_str(&self) -> (r: &str)
        ensures
            r@ == self@,
            valid_id(r@),
    {
        proof {
            use_type_invariant(self);
        }
        self.id.as_str()
    }
}

/// Returns the callback's result, unless unlocking the file failed after
/// the callback succeeded: an unlock error only wins over a success.
pub fn call_and_unlock_result<T, E>(ret: Result<T, E>, unlock: Result<(), E>) -> (r: Result<T, E>)
    ensures
        match unlock {
            Ok(_) => r == ret,
            Err(e) => if ret is Err {
                r == ret
            } else {
                r == Err::<T, E>(e)
            },
        },
{
    match unlock {
        Ok(_) => ret,
        Err(e) => {
            if ret.is_err() {
                ret
            } else {
                Err(e)
            }
        },
    }
}

/// The steps of opening a project for editing, in order.
#[derive(Clone, Copy, Debug, PartialEq, Eq, Structural)]
pub enum OpenStep {
    /// Take a shared lock on the info file.
    LockInfo,
    /// Create the data file, or open it if it exists.
    CreateOrOpenData,
    /// Take the exclusive lock on the data file.
    LockData,
    /// Write default data to a new data file, or read the existing one.
    LoadData,
}

/// The position of a step.
pub open spec fn step_index(s: OpenStep) -> int {
    match s {
        OpenStep::LockInfo => 0,
        OpenStep::CreateOrOpenData => 1,
        OpenStep::LockData => 2,
        OpenStep::LoadData => 3,
    }
}

/// What is undone when a step fails.
#[derive(Clone, Copy, Debug, PartialEq, Eq, Structural)]
pub struct OpenCleanup {
    pub unlock_data_file: bool,
    pub remove_data_file: bool,
    pub unlock_info_file: bool,
}

/// What to undo when step `failed` fails: each earlier step that changed
/// something is undone (the data file is removed only if this open created
/// it), and nothing else.
pub fn cleanup_after_failure(failed: OpenStep, data_file_created: bool) -> (r: OpenCleanup)
    ensures
        r.unlock_info_file == (step_index(failed) > step_index(OpenStep::LockInfo)),
        r.remove_data_file == (step_index(failed) > step_index(OpenStep::CreateOrOpenData) && data_file_created),
        r.unlock_data_file == (step_index(failed) > step_index(OpenStep::LockData)),
{
    match failed {
        OpenStep::LockInfo => OpenCleanup { unlock_data_file: false, remove_data_file: false, unlock_info_file: false },
        OpenStep::CreateOrOpenData => OpenCleanup {
            unlock_data_file: false,
            remove_data_file: false,
            unlock_info_file: true,
        },
        OpenStep::LockData => OpenCleanup {
            unlock_data_file: false,
            remove_data_file: data_file_created,
            unlock_info_file: true,
        },
        OpenStep::LoadData => OpenCleanup {
            unlock_data_file: true,
            remove_data_file: data_file_created,
            unlock_info_file: true,
        },
    }
}

/// How an attempt to lock a file without waiting ended.
#[derive(Debug)]
pub enum TryLockOutcome {
    Locked,
    WouldBlock,
    Failed(String),
}

/// The error an open reports when locking the data file did not succeed:
/// the project is open elsewhere (the project itself is put in by
/// [open_error]), or the lock failed.
pub fn data_lock_error(outcome: TryLockOutcome) -> (r: Option<ProjectError<()>>)
    ensures
        match outcome {
            TryLockOutcome::Locked => r is None,
            TryLockOutcome::WouldBlock => r matches Some(ProjectError::Locked(_)),
            TryLockOutcome::Failed(m) => r matches Some(ProjectError::IoError(e)) && e == m,
        },
{
    match outcome {
        TryLockOutcome::Locked => None,
        TryLockOutcome::WouldBlock => Some(ProjectError::Locked(())),
        TryLockOutcome::Failed(m) => Some(ProjectError::IoError(m)),
    }
}

/// The error a failed open returns once its steps are undone: a project
/// that is open elsewhere is handed back inside [ProjectError::Locked]; the
/// other errors carry over as they are.
pub fn open_error<P>(e: ProjectError<()>, project: P) -> (r: ProjectError<P>)
    ensures
        match e {
            ProjectError::Locked(_) => r == ProjectError::Locked(project),
            ProjectError::BadSerializedData => r is BadSerializedData,
            ProjectError::DuplicateId => r is DuplicateId,
            ProjectError::InvalidIdString => r is InvalidIdString,
            ProjectError::IoError(m) => r matches ProjectError::IoError(m2) && m2 == m,
        },
{
    match e {
        ProjectError::Locked(_) => ProjectError::Locked(project),
        ProjectError::BadSerializedData => ProjectError::BadSerializedData,
        ProjectError::DuplicateId => ProjectError::DuplicateId,
        ProjectError::InvalidIdString => ProjectError::InvalidIdString,
        ProjectError::IoError(m) => ProjectError::IoError(m),
    }
}

/// Whether a project is open for editing, from an attempt to open its data
/// file (`None`: it does not exist) and to lock it: a missing data file
/// means closed, a lock that would block means open.
pub fn is_open_outcome<P>(data_file_exists: bool, lock: TryLockOutcome) -> (r: Result<bool, ProjectError<P>>)
    ensures
        !data_file_exists ==> r matches Ok(false),
        data_file_exists ==> match lock {
            TryLockOutcome::Locked => r matches Ok(false),
            TryLockOutcome::WouldBlock => r matches Ok(true),
            TryLockOutcome::Failed(m) => r matches Err(ProjectError::IoError(e)) && e == m,
        },
{
    if !data_file_exists {
        return Ok(false);
    }
    match lock {
        TryLockOutcome::Locked => Ok(false),
        TryLockOutcome::WouldBlock => Ok(true),
        TryLockOutcome::Failed(m) => Err(ProjectError::IoError(m)),
    }
}

/// A loaded info file belongs to the project only if it holds the
/// project's own id.
pub fn check_loaded_id<P>(expected: &str, loaded: &str) -> (r: Result<(), ProjectError<P>>)
    ensures
        expected@ == loaded@ ==> r is Ok,
        expected@ != loaded@ ==> r matches Err(ProjectError::BadSerializedData),
{
    if text_eq(expected, loaded) {
        Ok(())
    } else {
        Err(ProjectError::BadSerializedData)
    }
}

/// A project as the launcher lists it.
#[derive(Debug)]
pub struct ListedProject {
    pub id: String,
    pub name: String,
    /// When the project was last edited (or created), in nanoseconds.
    pub touched: u128,
}

/// `a` is listed before `b`: more recently touched first, then by name.
pub open spec fn listed_before(a: (u128, Seq<char>), b: (u128, Seq<char>)) -> bool {
    a.0 > b.0 || (a.0 == b.0 && text_lt(a.1, b.1))
}

/// The sort key of a listed project.
pub open spec fn list_key(p: ListedProject) -> (u128, Seq<char>) {
    (p.touched, p.name@)
}

/// The list is in launcher order: no project comes before one listed
/// before it.
pub open spec fn list_sorted(s: Seq<ListedProject>) -> bool {
    forall|i: int, j: int| 0 <= i < j < s.len() ==> !listed_before(list_key(#[trigger] s[j]), list_key(#[trigger] s[i]))
}

/// The launcher's project list, in launcher order.
#[derive(Debug)]
pub struct ProjectList {
    projects: Vec<ListedProject>,
}

impl View for ProjectList {
    type V = Seq<ListedProject>;

    closed spec fn view(&self) -> Seq<ListedProject> {
        self.projects@
    }
}

impl ProjectList {
    #[verifier::type_invariant]
    spec fn inv(self) -> bool {
        list_sorted(self.projects@)
    }

    /// An empty list.
    pub fn new() -> (r: Self)
        ensures
            r@ == Seq::<ListedProject>::empty(),
            list_sorted(r@),
    {
        ProjectList { projects: Vec::new() }
    }

    /// The position a project takes in the list: after every project listed
    /// before it, before every project it is listed before.
    fn insert_index(&self, p: &ListedProject) -> (r: usize)
        ensures
            r <= self@.len(),
            forall|i: int| 0 <= i < r ==> !listed_before(list_key(*p), list_key(#[trigger] self@[i])),
            forall|i: int| r <= i < self@.len() ==> !listed_before(list_key(#[trigger] self@[i]), list_key(*p)),
    {
        proof {
            use_type_invariant(self);
        }
        let mut i: usize = 0;
        while i < self.projects.len()
            invariant
                list_sorted(self.projects@),
                i <= self.projects@.len(),
                forall|j: int| 0 <= j < i ==> !listed_before(list_key(*p), list_key(#[trigger] self.projects@[j])),
            decreases self.projects.len() - i,
        {
            let q = &self.projects[i];
            let p_first = p.touched > q.touched || (p.touched == q.touched && text_less(p.name.as_str(), q.name.as_str()));
            if p_first {
                proof {
                    assert forall|j: int| i <= j < self.projects@.len() implies !listed_before(
                        list_key(#[trigger] self.projects@[j]),
                        list_key(*p),
                    ) by {
                        if j > i {
                            assert(!listed_before(list_key(self.projects@[j]), list_key(self.projects@[i as int])));
                            lemma_listed_before_order(list_key(self.projects@[j]), list_key(self.projects@[i as int]), list_key(*p));
                        } else {
                            lemma_listed_before_asymmetric(list_key(*p), list_key(self.projects@[j]));
                        }
                    }
                }
                return i;
            }
            i = i + 1;
        }
        i
    }

    /// Adds a project, keeping the list in launcher order; the projects
    /// already listed keep their order.
    pub fn insert(&mut self, p: ListedProject)
        ensures
            exists|i: int| 0 <= i <= old(self)@.len() && final(self)@ == #[trigger] old(self)@.insert(i, p),
            final(self)@.len() == old(self)@.len() + 1,
            final(self)@.to_multiset() == old(self)@.to_multiset().insert(p),
            list_sorted(final(self)@),
    {
        proof {
            use_type_invariant(&*self);
        }
        let i = self.insert_index(&p);
        let mut projects: Vec<ListedProject> = Vec::new();
        std::mem::swap(&mut projects, &mut self.projects);
        let ghost before = projects@;
        let ghost pv = p;
        projects.insert(i, p);
        proof {
            assert(projects@ == before.insert(i as int, pv));
            assert(projects@ =~= before.take(i as int).push(pv) + before.skip(i as int));
            assert forall|a: int, b: int| 0 <= a < b < projects@.len() implies !listed_before(
                list_key(#[trigger] projects@[b]),
                list_key(#[trigger] projects@[a]),
            ) by {
                if a < i && b > i {
                    assert(projects@[a] == before[a]);
                    assert(projects@[b] == before[b - 1]);
                } else if a < i && b == i {
                } else if a == i && b > i {
                    assert(projects@[b] == before[b - 1]);
                } else if b < i {
                    assert(projects@[a] == before[a]);
                    assert(projects@[b] == before[b]);
                } else {
                    assert(projects@[a] == before[a - 1]);
                    assert(projects@[b] == before[b - 1]);
                }
            }
            before.take(i as int).to_multiset_ensures();
            vstd::seq_lib::lemma_multiset_commutative(before.take(i as int).push(pv), before.skip(i as int));
            vstd::seq_lib::lemma_multiset_commutative(before.take(i as int), before.skip(i as int));
            assert(before.take(i as int) + before.skip(i as int) =~= before);
        }
        self.projects = projects;
    }

    /// The position of the project with id `id`, if listed.
    pub fn position(&self, id: &str) -> (r: Option<usize>)
        ensures
            match r {
                Some(i) => i < self@.len() && self@[i as int].id@ == id@ && forall|j: int|
                    0 <= j < i ==> (#[trigger] self@[j]).id@ != id@,
                None => forall|j: int| 0 <= j < self@.len() ==> (#[trigger] self@[j]).id@ != id@,
            },
    {
        let mut i: usize = 0;
        while i < self.projects.len()
            invariant
                i <= self.projects@.len(),
                forall|j: int| 0 <= j < i ==> (#[trigger] self.projects@[j]).id@ != id@,
            decreases self.projects.len() - i,
        {
            if text_eq(self.projects[i].id.as_str(), id) {
                return Some(i);
            }
            i = i + 1;
        }
        None
    }

    /// Removes the first project with id `id` (nothing if none is listed).
    pub fn remove(&mut self, id: &str)
        ensures
            match old(self).position_spec(id@) {
                Some(i) => final(self)@ == old(self)@.remove(i),
                None => final(self)@ == old(self)@,
            },
            list_sorted(final(self)@),
    {
        proof {
            use_type_invariant(&*self);
        }
        match self.position(id) {
            Some(i) => {
                let mut projects: Vec<ListedProject> = Vec::new();
                std::mem::swap(&mut projects, &mut self.projects);
                let ghost before = projects@;
                projects.remove(i);
                proof {
                    assert forall|a: int, b: int| 0 <= a < b < projects@.len() implies !listed_before(
                        list_key(#[trigger] projects@[b]),
                        list_key(#[trigger] projects@[a]),
                    ) by {
                        let a2 = if a < i { a } else { a + 1 };
                        let b2 = if b < i { b } else { b + 1 };
                        assert(projects@[a] == before[a2]);
                        assert(projects@[b] == before[b2]);
                    }
                    assert(old(self).position_spec(id@) == Some(i as int)) by {
                        lemma_first_position(before, id@, i as int);
                    }
                }
                self.projects = projects;
            },
            None => {
                proof {
                    assert(self@ == self.projects@);
                    assert forall|j: int| 0 <= j < self.projects@.len() implies (#[trigger] self.projects@[j]).id@ != id@ by {
                        assert(self@[j].id@ != id@);
                    }
                    lemma_no_position(self.projects@, id@);
                }
            },
        }
    }

    /// Puts `p` in place of the first project with id `id`, at the position
    /// its possibly changed edit time and name give it; returns whether that
    /// project was listed (if not, nothing changes).
    pub fn replace(&mut self, id: &str, p: ListedProject) -> (r: bool)
        ensures
            match old(self).position_spec(id@) {
                Some(i) => r && final(self)@.len() == old(self)@.len() && final(self)@.to_multiset()
                    == old(self)@.remove(i).to_multiset().insert(p) && exists|j: int|
                    0 <= j < old(self)@.len() && final(self)@ == #[trigger] old(self)@.remove(i).insert(j, p),
                None => !r && final(self)@ == old(self)@,
            },
            list_sorted(final(self)@),
    {
        proof {
            use_type_invariant(&*self);
        }
        let ghost before = self.projects@;
        match self.position(id) {
            Some(i) => {
                proof {
                    lemma_first_position(before, id@, i as int);
                }
                self.remove(id);
                assert(self@ == before.remove(i as int));
                self.insert(p);
                true
            },
            None => {
                proof {
                    assert forall|j: int| 0 <= j < before.len() implies (#[trigger] before[j]).id@ != id@ by {
                        assert(self@[j] == before[j]);
                    }
                    lemma_no_position(before, id@);
                }
                false
            },
        }
    }

    /// The listed projects, in launcher order.
    pub fn projects(&self) -> (r: &Vec<ListedProject>)
        ensures
            r@ == self@,
            list_sorted(r@),
    {
        proof {
            use_type_invariant(self);
        }
        &self.projects
    }

    /// The position of the first project with id `id`.
    pub closed spec fn position_spec(self, id: Seq<char>) -> Option<int> {
        first_with_id(self.projects@, id, 0)
    }
}

/// The first position at or after `from` of a project with id `id`.
pub open spec fn first_with_id(s: Seq<ListedProject>, id: Seq<char>, from: int) -> Option<int>
    decreases s.len() - from,
{
    if from < 0 || from >= s.len() {
        None
    } else if s[from].id@ == id {
        Some(from)
    } else {
        first_with_id(s, id, from + 1)
    }
}

proof fn lemma_first_position(s: Seq<ListedProject>, id: Seq<char>, i: int)
    requires
        0 <= i < s.len(),
        s[i].id@ == id,
        forall|j: int| 0 <= j < i ==> (#[trigger] s[j]).id@ != id,
    ensures
        first_with_id(s, id, 0) == Some(i),
{
    lemma_first_from(s, id, 0, i);
}

proof fn lemma_first_from(s: Seq<ListedProject>, id: Seq<char>, from: int, i: int)
    requires
        0 <= from <= i < s.len(),
        s[i].id@ == id,
        forall|j: int| from <= j < i ==> (#[trigger] s[j]).id@ != id,
    ensures
        first_with_id(s, id, from) == Some(i),
    decreases i - from,
{
    if from < i {
        lemma_first_from(s, id, from + 1, i);
    }
}

proof fn lemma_no_position(s: Seq<ListedProject>, id: Seq<char>)
    requires
        forall|j: int| 0 <= j < s.len() ==> (#[trigger] s[j]).id@ != id,
    ensures
        first_with_id(s, id, 0) is None,
{
    lemma_none_from(s, id, 0);
}

proof fn lemma_none_from(s: Seq<ListedProject>, id: Seq<char>, from: int)
    requires
        0 <= from,
        forall|j: int| from <= j < s.len() ==> (#[trigger] s[j]).id@ != id,
    ensures
        first_with_id(s, id, from) is None,
    decreases s.len() - from,
{
    if from < s.len() {
        lemma_none_from(s, id, from + 1);
    }
}

/// No project is listed before a project it comes after.
pub proof fn lemma_listed_before_asymmetric(a: (u128, Seq<char>), b: (u128, Seq<char>))
    requires
        listed_before(a, b),
    ensures
        !listed_before(b, a),
{
    if a.0 == b.0 && text_lt(a.1, b.1) {
        crate::text::lemma_text_lt_asymmetric(a.1, b.1);
    }
}

/// If `a` is not listed before `b` while `c` is, `a` is not listed before
/// `c` either: the launcher order is transitive.
pub proof fn lemma_listed_before_order(a: (u128, Seq<char>), b: (u128, Seq<char>), c: (u128, Seq<char>))
    requires
        !listed_before(a, b),
        listed_before(c, b),
    ensures
        !listed_before(a, c),
{
    if listed_before(a, c) && a.0 == c.0 && c.0 == b.0 && text_lt(a.1, c.1) && text_lt(c.1, b.1) {
        crate::text::lemma_text_lt_transitive(a.1, c.1, b.1);
    }
}

} // verus!
