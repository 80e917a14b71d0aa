//! The managed root directory as a value: the mod files that lie loose in it,
//! its sets with the mod files parked inside them, and the stored pointer
//! record.

use crate::error::{EngineError, ErrorView, Phase};
use vstd::prelude::*;

verus! {

/// The names that a list of strings holds, in order.
pub open spec fn names_of(list: Seq<String>) -> Seq<Seq<char>> {
    list.map_values(|s: String| s@)
}

/// A set as the contracts see it: its name and the mod files parked inside it.
pub struct SetView {
    pub name: Seq<char>,
    pub files: Seq<Seq<char>>,
}

/// The root directory as the contracts see it.
pub struct RootView {
    /// The mod files that lie loose in the root, in listing order.
    pub loose: Seq<Seq<char>>,
    /// The sets, in listing order.
    pub sets: Seq<SetView>,
    /// The bytes of the pointer record, `None` while the record does not exist.
    pub record: Option<Seq<u8>>,
}

impl RootView {
    /// A directory holds no name twice, and no directory has an empty name.
    pub open spec fn wf(self) -> bool {
        &&& self.loose.no_duplicates()
        &&& forall|i: int|
            0 <= i < self.sets.len() ==> (#[trigger] self.sets[i]).name.len() > 0
        &&& forall|i: int|
            0 <= i < self.sets.len() ==> (#[trigger] self.sets[i]).files.no_duplicates()
        &&& forall|i: int, j: int|
            0 <= i < self.sets.len() && 0 <= j < self.sets.len() && i != j ==> (
            #[trigger] self.sets[i]).name != (#[trigger] self.sets[j]).name
    }

    /// A root without sets, loose files or record.
    pub open spec fn empty() -> RootView {
        RootView { loose: Seq::empty(), sets: Seq::empty(), record: None }
    }

    /// The names of the sets, in listing order.
    pub open spec fn catalog(self) -> Seq<Seq<char>> {
        self.sets.map_values(|s: SetView| s.name)
    }

    /// Whether the root has a set called `name`.
    pub open spec fn has_set(self, name: Seq<char>) -> bool {
        self.catalog().contains(name)
    }

    /// The place of the set called `name` in the catalog.
    pub open spec fn index_of(self, name: Seq<char>) -> int {
        self.catalog().index_of(name)
    }

    /// The mod files parked inside the set called `name`.
    pub open spec fn files_of(self, name: Seq<char>) -> Seq<Seq<char>> {
        self.sets[self.index_of(name)].files
    }

    /// The root with one more set, empty, behind the others.
    pub open spec fn with_set(self, name: Seq<char>) -> RootView {
        RootView { sets: self.sets.push(SetView { name, files: Seq::empty() }), ..self }
    }

    /// The root with one more loose file, behind the others.
    pub open spec fn with_loose(self, file: Seq<char>) -> RootView {
        RootView { loose: self.loose.push(file), ..self }
    }

    /// The root with one more file in the set called `set`, behind the others.
    pub open spec fn with_parked(self, set: Seq<char>, file: Seq<char>) -> RootView {
        let i = self.index_of(set);
        RootView {
            sets: self.sets.update(
                i,
                SetView { name: self.sets[i].name, files: self.sets[i].files.push(file) },
            ),
            ..self
        }
    }

    /// The root with `bytes` as its pointer record.
    pub open spec fn with_record(self, bytes: Seq<u8>) -> RootView {
        RootView { record: Some(bytes), ..self }
    }
}

/// Whether one of the files in `moving` has the name of a file in `present`.
pub open spec fn collides(moving: Seq<Seq<char>>, present: Seq<Seq<char>>) -> bool {
    exists|k: int| 0 <= k < moving.len() && present.contains(#[trigger] moving[k])
}

/// Whether `moving[k]` is the first file in `moving` with the name of a file
/// in `present`.
pub open spec fn is_first_collision(
    moving: Seq<Seq<char>>,
    present: Seq<Seq<char>>,
    k: int,
) -> bool {
    &&& 0 <= k < moving.len()
    &&& present.contains(moving[k])
    &&& forall|j: int| 0 <= j < k ==> !present.contains(#[trigger] moving[j])
}

/// The first file in `moving` with the name of a file in `present`.
pub open spec fn first_collision(moving: Seq<Seq<char>>, present: Seq<Seq<char>>) -> Seq<char> {
    moving[choose|k: int| is_first_collision(moving, present, k)]
}

/// Why the loose files cannot be parked in the set called `set`, if they
/// cannot. With no loose file there is nothing to park, and nothing to fail.
pub open spec fn park_error(r: RootView, set: Seq<char>) -> Option<ErrorView> {
    if r.loose.len() == 0 {
        None
    } else if !r.has_set(set) {
        Some(ErrorView::IOFailure { path: set, phase: Phase::Park })
    } else if collides(r.loose, r.files_of(set)) {
        Some(
            ErrorView::RelocationConflict {
                file: first_collision(r.loose, r.files_of(set)),
                phase: Phase::Park,
            },
        )
    } else {
        None
    }
}

/// The root after every loose file has gone into the set called `set`, behind
/// the files that the set held.
pub open spec fn parked(r: RootView, set: Seq<char>) -> RootView {
    if r.loose.len() == 0 {
        r
    } else {
        let i = r.index_of(set);
        RootView {
            loose: Seq::empty(),
            sets: r.sets.update(
                i,
                SetView { name: r.sets[i].name, files: r.sets[i].files + r.loose },
            ),
            record: r.record,
        }
    }
}

/// Why the files of the set called `set` cannot be pulled into the root, if
/// they cannot.
pub open spec fn pull_error(r: RootView, set: Seq<char>) -> Option<ErrorView> {
    if !r.has_set(set) {
        Some(ErrorView::InvalidTarget)
    } else if collides(r.files_of(set), r.loose) {
        Some(
            ErrorView::RelocationConflict {
                file: first_collision(r.files_of(set), r.loose),
                phase: Phase::Pull,
            },
        )
    } else {
        None
    }
}

/// The root after every file of the set called `set` has come out into the
/// root, behind the files that lay loose there.
pub open spec fn pulled(r: RootView, set: Seq<char>) -> RootView {
    let i = r.index_of(set);
    RootView {
        loose: r.loose + r.sets[i].files,
        sets: r.sets.update(i, SetView { name: r.sets[i].name, files: Seq::empty() }),
        record: r.record,
    }
}

/// One file to move, as the contracts see it.
pub struct RelocationView {
    pub file: Seq<char>,
    pub set: Seq<char>,
    pub phase: Phase,
}

/// Why a single file cannot be moved, if it cannot: the set must be there,
/// the file must lie where it is to leave, and no file of its name may lie
/// where it is to go.
pub open spec fn relocation_error(r: RootView, mv: RelocationView) -> Option<ErrorView> {
    let inside = r.files_of(mv.set);
    let (source, destination) = match mv.phase {
        Phase::Park => (r.loose, inside),
        Phase::Pull => (inside, r.loose),
    };
    if !r.has_set(mv.set) {
        Some(ErrorView::IOFailure { path: mv.set, phase: mv.phase })
    } else if !source.contains(mv.file) {
        Some(ErrorView::IOFailure { path: mv.file, phase: mv.phase })
    } else if destination.contains(mv.file) {
        Some(ErrorView::RelocationConflict { file: mv.file, phase: mv.phase })
    } else {
        None
    }
}

/// The root after a single file has moved: it has left the listing that held
/// it and stands last in the other.
pub open spec fn relocated(r: RootView, mv: RelocationView) -> RootView {
    let i = r.index_of(mv.set);
    let inside = r.sets[i].files;
    let (loose, files) = match mv.phase {
        Phase::Park => (r.loose.remove(r.loose.index_of(mv.file)), inside.push(mv.file)),
        Phase::Pull => (r.loose.push(mv.file), inside.remove(inside.index_of(mv.file))),
    };
    RootView {
        loose,
        sets: r.sets.update(i, SetView { name: r.sets[i].name, files }),
        record: r.record,
    }
}

/// In a well-formed root a set's name gives its place.
pub proof fn lemma_index_of_set(r: RootView, i: int)
    requires
        r.wf(),
        0 <= i < r.sets.len(),
    ensures
        r.has_set(r.sets[i].name),
        r.index_of(r.sets[i].name) == i,
{
    let name = r.sets[i].name;
    assert(r.catalog()[i] == name);
    let k = r.index_of(name);
    assert(0 <= k < r.catalog().len() && r.catalog()[k] == name);
    assert(r.sets[k].name == name);
}

/// The first collision is the only position that `is_first_collision` admits.
pub proof fn lemma_first_collision(moving: Seq<Seq<char>>, present: Seq<Seq<char>>, k: int)
    requires
        is_first_collision(moving, present, k),
    ensures
        collides(moving, present),
        first_collision(moving, present) == moving[k],
{
    let c = choose|c: int| is_first_collision(moving, present, c);
    assert(is_first_collision(moving, present, c));
    if c < k {
        assert(!present.contains(moving[c]));
    } else if k < c {
        assert(!present.contains(moving[k]));
    }
}

/// One set: a named subdirectory of the root and the mod files parked in it.
pub struct ModSet {
    name: String,
    files: Vec<String>,
}

impl View for ModSet {
    type V = SetView;

    closed spec fn view(&self) -> SetView {
        SetView { name: self.name@, files: names_of(self.files@) }
    }
}

/// One file to move: out of the root into the set called `set` in the park
/// phase, out of that set into the root in the pull phase.
#[derive(Debug, PartialEq, Eq)]
pub struct Relocation {
    pub file: String,
    pub set: String,
    pub phase: Phase,
}

impl View for Relocation {
    type V = RelocationView;

    open spec fn view(&self) -> RelocationView {
        RelocationView { file: self.file@, set: self.set@, phase: self.phase }
    }
}

/// The root directory: what the engine reads and moves.
pub struct Root {
    loose: Vec<String>,
    sets: Vec<ModSet>,
    record: Option<Vec<u8>>,
}

spec fn sets_of(list: Seq<ModSet>) -> Seq<SetView> {
    list.map_values(|s: ModSet| s@)
}

impl View for Root {
    type V = RootView;

    closed spec fn view(&self) -> RootView {
        RootView {
            loose: names_of(self.loose@),
            sets: sets_of(self.sets@),
            record: match self.record {
                Some(bytes) => Some(bytes@),
                None => None,
            },
        }
    }
}

/// The place of `name` in `list`, if `list` holds it.
fn find(list: &Vec<String>, name: &String) -> (place: Option<usize>)
    ensures
        match place {
            Some(k) => k < list.len() && names_of(list@)[k as int] == name@,
            None => !names_of(list@).contains(name@),
        },
{
    let mut i: usize = 0;
    while i < list.len()
        invariant
            i <= list.len(),
            forall|j: int| 0 <= j < i ==> names_of(list@)[j] != name@,
        decreases list.len() - i,
    {
        if list[i] == *name {
            assert(names_of(list@)[i as int] == name@);
            return Some(i);
        }
        i += 1;
    }
    None
}

/// Whether `list` holds `name`.
fn holds(list: &Vec<String>, name: &String) -> (found: bool)
    ensures
        found == names_of(list@).contains(name@),
{
    find(list, name).is_some()
}

/// A copy of `list`, name by name.
fn copy_names(list: &Vec<String>) -> (copy: Vec<String>)
    ensures
        names_of(copy@) == names_of(list@),
{
    let mut copy: Vec<String> = Vec::new();
    let mut i: usize = 0;
    while i < list.len()
        invariant
            i <= list.len(),
            copy.len() == i,
            forall|j: int| 0 <= j < i ==> copy@[j]@ == list@[j]@,
        decreases list.len() - i,
    {
        copy.push(list[i].clone());
        i += 1;
    }
    assert(names_of(copy@) =~= names_of(list@));
    copy
}

/// The place in `moving` of the first file whose name `present` holds too.
fn find_collision(moving: &Vec<String>, present: &Vec<String>) -> (place: Option<usize>)
    ensures
        match place {
            Some(k) => is_first_collision(names_of(moving@), names_of(present@), k as int),
            None => !collides(names_of(moving@), names_of(present@)),
        },
{
    let mut k: usize = 0;
    while k < moving.len()
        invariant
            k <= moving.len(),
            forall|j: int|
                0 <= j < k ==> !names_of(present@).contains(#[trigger] names_of(moving@)[j]),
        decreases moving.len() - k,
    {
        if holds(present, &moving[k]) {
            assert(names_of(moving@)[k as int] == moving@[k as int]@);
            return Some(k);
        }
        assert(names_of(moving@)[k as int] == moving@[k as int]@);
        k += 1;
    }
    None
}

impl Root {
    /// A root without sets, loose files or record.
    pub fn new() -> (root: Root)
        ensures
            root@ == RootView::empty(),
            root@.wf(),
    {
        let root = Root { loose: Vec::new(), sets: Vec::new(), record: None };
        assert(root@.loose =~= Seq::empty());
        assert(root@.sets =~= Seq::empty());
        root
    }

    /// The place of the set called `name`, if the root has it.
    pub fn position(&self, name: &str) -> (place: Option<usize>)
        requires
            self@.wf(),
        ensures
            place is Some <==> self@.has_set(name@),
            place is Some ==> place.unwrap() == self@.index_of(name@),
    {
        let wanted = name.to_owned();
        let mut i: usize = 0;
        while i < self.sets.len()
            invariant
                self@.wf(),
                i <= self.sets.len(),
                wanted@ == name@,
                forall|j: int| 0 <= j < i ==> self@.catalog()[j] != name@,
            decreases self.sets.len() - i,
        {
            if self.sets[i].name == wanted {
                proof {
                    assert(self@.sets[i as int].name == name@);
                    lemma_index_of_set(self@, i as int);
                }
                return Some(i);
            }
            assert(self@.catalog()[i as int] == self.sets@[i as int].name@);
            i += 1;
        }
        None
    }
    /// Whether the park phase into the set called `set` would go through.
    pub fn check_park(&self, set: &str) -> (result: Result<(), EngineError>)
        requires
            self@.wf(),
        ensures
            match result {
                Ok(()) => park_error(self@, set@) is None,
                Err(e) => park_error(self@, set@) == Some(e@),
            },
    {
        if self.loose.len() == 0 {
            return Ok(());
        }
        match self.position(set) {
            None => Err(EngineError::IOFailure { path: set.to_owned(), phase: Phase::Park }),
            Some(i) => {
                match find_collision(&self.loose, &self.sets[i].files) {
                    Some(k) => {
                        proof {
                            lemma_first_collision(self@.loose, self@.files_of(set@), k as int);
                        }
                        Err(
                            EngineError::RelocationConflict {
                                file: self.loose[k].clone(),
                                phase: Phase::Park,
                            },
                        )
                    },
                    None => Ok(()),
                }
            },
        }
    }

    /// The park phase: every loose file goes into the set called `set`. On an
    /// error nothing has moved.
    pub fn park(&mut self, set: &str) -> (result: Result<(), EngineError>)
        requires
            old(self)@.wf(),
        ensures
            final(self)@.wf(),
            match result {
                Ok(()) => park_error(old(self)@, set@) is None && final(self)@ == parked(
                    old(self)@,
                    set@,
                ),
                Err(e) => park_error(old(self)@, set@) == Some(e@) && final(self)@ == old(self)@,
            },
    {
        match self.check_park(set) {
            Err(e) => {
                return Err(e);
            },
            Ok(()) => {},
        }
        if self.loose.len() == 0 {
            return Ok(());
        }
        match self.position(set) {
            None => {},
            Some(i) => {
                let ghost before = self@;
                self.sets[i].files.append(&mut self.loose);
                proof {
                    let after = parked(before, set@);
                    assert(self@.loose =~= after.loose);
                    assert(self@.sets[i as int].files =~= after.sets[i as int].files);
                    assert(self@.sets =~= after.sets);
                    vstd::seq_lib::lemma_no_dup_in_concat(
                        before.sets[i as int].files,
                        before.loose,
                    );
                }
            },
        }
        Ok(())
    }
    /// Whether the pull phase out of the set called `set` would go through.
    pub fn check_pull(&self, set: &str) -> (result: Result<(), EngineError>)
        requires
            self@.wf(),
        ensures
            match result {
                Ok(()) => pull_error(self@, set@) is None,
                Err(e) => pull_error(self@, set@) == Some(e@),
            },
    {
        match self.position(set) {
            None => Err(EngineError::InvalidTarget),
            Some(i) => {
                match find_collision(&self.sets[i].files, &self.loose) {
                    Some(k) => {
                        proof {
                            lemma_first_collision(self@.files_of(set@), self@.loose, k as int);
                        }
                        Err(
                            EngineError::RelocationConflict {
                                file: self.sets[i].files[k].clone(),
                                phase: Phase::Pull,
                            },
                        )
                    },
                    None => Ok(()),
                }
            },
        }
    }

    /// The pull phase: every file of the set called `set` comes out into the
    /// root. On an error nothing has moved.
    pub fn pull(&mut self, set: &str) -> (result: Result<(), EngineError>)
        requires
            old(self)@.wf(),
        ensures
            final(self)@.wf(),
            match result {
                Ok(()) => pull_error(old(self)@, set@) is None && final(self)@ == pulled(
                    old(self)@,
                    set@,
                ),
                Err(e) => pull_error(old(self)@, set@) == Some(e@) && final(self)@ == old(self)@,
            },
    {
        match self.check_pull(set) {
            Err(e) => {
                return Err(e);
            },
            Ok(()) => {},
        }
        match self.position(set) {
            None => {},
            Some(i) => {
                let ghost before = self@;
                self.loose.append(&mut self.sets[i].files);
                proof {
                    let after = pulled(before, set@);
                    assert(self@.loose =~= after.loose);
                    assert(self@.sets[i as int].files =~= after.sets[i as int].files);
                    assert(self@.sets =~= after.sets);
                    vstd::seq_lib::lemma_no_dup_in_concat(
                        before.loose,
                        before.sets[i as int].files,
                    );
                }
            },
        }
        Ok(())
    }

    /// Adds an empty set called `name`, unless the name is empty or taken.
    pub fn add_set(&mut self, name: &str) -> (added: bool)
        requires
            old(self)@.wf(),
        ensures
            final(self)@.wf(),
            added == (name@.len() > 0 && !old(self)@.has_set(name@)),
            final(self)@ == if added {
                old(self)@.with_set(name@)
            } else {
                old(self)@
            },
    {
        if name.unicode_len() == 0 || self.position(name).is_some() {
            return false;
        }
        let ghost before = self@;
        self.sets.push(ModSet { name: name.to_owned(), files: Vec::new() });
        proof {
            let after = before.with_set(name@);
            assert(self@.sets.last().files =~= Seq::empty());
            assert(self@.sets =~= after.sets);
            assert forall|i: int, j: int|
                0 <= i < after.sets.len() && 0 <= j < after.sets.len() && i != j implies (
            #[trigger] after.sets[i]).name != (#[trigger] after.sets[j]).name by {
                if i < before.sets.len() {
                    assert(before.catalog()[i] == before.sets[i].name);
                }
                if j < before.sets.len() {
                    assert(before.catalog()[j] == before.sets[j].name);
                }
            }
        }
        true
    }

    /// Lays a mod file called `file` loose in the root, unless one of that
    /// name lies there already.
    pub fn add_loose_file(&mut self, file: &str) -> (added: bool)
        requires
            old(self)@.wf(),
        ensures
            final(self)@.wf(),
            added == !old(self)@.loose.contains(file@),
            final(self)@ == if added {
                old(self)@.with_loose(file@)
            } else {
                old(self)@
            },
    {
        let owned = file.to_owned();
        if holds(&self.loose, &owned) {
            return false;
        }
        let ghost before = self@;
        self.loose.push(owned);
        proof {
            assert(self@.loose =~= before.loose.push(file@));
        }
        true
    }

    /// Parks a mod file called `file` in the set called `set`, unless the root
    /// has no such set or the set holds a file of that name already.
    pub fn add_parked_file(&mut self, set: &str, file: &str) -> (added: bool)
        requires
            old(self)@.wf(),
        ensures
            final(self)@.wf(),
            added == (old(self)@.has_set(set@) && !old(self)@.files_of(set@).contains(file@)),
            final(self)@ == if added {
                old(self)@.with_parked(set@, file@)
            } else {
                old(self)@
            },
    {
        match self.position(set) {
            None => false,
            Some(i) => {
                let owned = file.to_owned();
                if holds(&self.sets[i].files, &owned) {
                    return false;
                }
                let ghost before = self@;
                self.sets[i].files.push(owned);
                proof {
                    let after = before.with_parked(set@, file@);
                    assert(self@.sets[i as int].files =~= after.sets[i as int].files);
                    assert(self@.sets =~= after.sets);
                }
                true
            },
        }
    }

    /// The names of the sets, in listing order.
    pub fn catalog(&self) -> (list: Vec<String>)
        ensures
            names_of(list@) == self@.catalog(),
    {
        let mut list: Vec<String> = Vec::new();
        let mut i: usize = 0;
        while i < self.sets.len()
            invariant
                i <= self.sets.len(),
                list.len() == i,
                forall|j: int| 0 <= j < i ==> list@[j]@ == self.sets@[j].name@,
            decreases self.sets.len() - i,
        {
            list.push(self.sets[i].name.clone());
            i += 1;
        }
        assert(names_of(list@) =~= self@.catalog());
        list
    }

    /// The mod files that lie loose in the root.
    pub fn loose_files(&self) -> (list: Vec<String>)
        ensures
            names_of(list@) == self@.loose,
    {
        copy_names(&self.loose)
    }

    /// The mod files parked in the set called `set`, if the root has that set.
    pub fn files_in(&self, set: &str) -> (list: Option<Vec<String>>)
        requires
            self@.wf(),
        ensures
            list is Some <==> self@.has_set(set@),
            list is Some ==> names_of(list.unwrap()@) == self@.files_of(set@),
    {
        match self.position(set) {
            None => None,
            Some(i) => Some(copy_names(&self.sets[i].files)),
        }
    }
    /// The bytes of the pointer record, if the record exists.
    pub fn record(&self) -> (bytes: Option<Vec<u8>>)
        ensures
            match bytes {
                Some(b) => self@.record == Some(b@),
                None => self@.record is None,
            },
    {
        self.record.clone()
    }

    /// Replaces the pointer record, or creates it, with `bytes` as its whole
    /// content.
    pub fn write_record(&mut self, bytes: Vec<u8>)
        ensures
            final(self)@ == old(self)@.with_record(bytes@),
    {
        self.record = Some(bytes);
    }
    /// Moves a single file. On an error nothing has moved.
    pub fn relocate(&mut self, mv: &Relocation) -> (result: Result<(), EngineError>)
        requires
            old(self)@.wf(),
        ensures
            final(self)@.wf(),
            match result {
                Ok(()) => relocation_error(old(self)@, mv@) is None && final(self)@ == relocated(
                    old(self)@,
                    mv@,
                ),
                Err(e) => relocation_error(old(self)@, mv@) == Some(e@) && final(self)@ == old(
                    self,
                )@,
            },
    {
        let i = match self.position(mv.set.as_str()) {
            Some(i) => i,
            None => {
                return Err(EngineError::IOFailure { path: mv.set.clone(), phase: mv.phase });
            },
        };
        let ghost before = self@;
        match mv.phase {
            Phase::Park => {
                let k = match find(&self.loose, &mv.file) {
                    Some(k) => k,
                    None => {
                        return Err(
                            EngineError::IOFailure { path: mv.file.clone(), phase: mv.phase },
                        );
                    },
                };
                if holds(&self.sets[i].files, &mv.file) {
                    return Err(
                        EngineError::RelocationConflict {
                            file: mv.file.clone(),
                            phase: mv.phase,
                        },
                    );
                }
                let file = self.loose.remove(k);
                self.sets[i].files.push(file);
                proof {
                    let after = relocated(before, mv@);
                    assert(before.loose.index_of(mv@.file) == k);
                    assert(self@.loose =~= after.loose);
                    assert(self@.sets[i as int].files =~= after.sets[i as int].files);
                    assert(self@.sets =~= after.sets);
                }
            },
            Phase::Pull => {
                let k = match find(&self.sets[i].files, &mv.file) {
                    Some(k) => k,
                    None => {
                        return Err(
                            EngineError::IOFailure { path: mv.file.clone(), phase: mv.phase },
                        );
                    },
                };
                if holds(&self.loose, &mv.file) {
                    return Err(
                        EngineError::RelocationConflict {
                            file: mv.file.clone(),
                            phase: mv.phase,
                        },
                    );
                }
                let file = self.sets[i].files.remove(k);
                self.loose.push(file);
                proof {
                    let after = relocated(before, mv@);
                    assert(before.sets[i as int].files.index_of(mv@.file) == k);
                    assert(self@.loose =~= after.loose);
                    assert(self@.sets[i as int].files =~= after.sets[i as int].files);
                    assert(self@.sets =~= after.sets);
                }
            },
        }
        Ok(())
    }
}

} // verus!
