//! The commands, and the jobs that they are about.

use vstd::prelude::*;
use crate::cli::JobTarget;
use crate::client;
use crate::http;
use crate::http::HttpStatus;
use crate::text;

pub mod builds;
pub mod config;
pub mod config_sweep;
pub mod inspect;
pub mod list;
pub mod list_tag;
pub mod logs;
pub mod patch_tag;
pub mod sweep;

verus! {

/// What the server says of the class of a job.
#[derive(Debug)]
pub struct ClassInfo {
    pub class: Option<String>,
}

/// What the server says of a folder.
#[derive(Debug)]
pub struct FolderInfo {
    pub class: Option<String>,
    pub jobs: Vec<JobEntry>,
}

/// A job or a folder in a folder.
#[derive(Debug)]
pub struct JobEntry {
    pub name: String,
    pub class: String,
}

/// What a [`JobEntry`] stands for.
pub struct EntryModel {
    pub name: Seq<char>,
    pub class: Seq<char>,
}

impl View for JobEntry {
    type V = EntryModel;

    open spec fn view(&self) -> EntryModel {
        EntryModel { name: self.name@, class: self.class@ }
    }
}

/// Whether a class name ends in `folder`, in whatever case it is written.
pub open spec fn ends_in_folder(class: Seq<char>) -> bool {
    "folder"@.is_suffix_of(text::lowered(class))
}

/// Whether a class is that of a folder. The class of a multibranch pipeline is not: such a
/// pipeline has a configuration, and can be named as a job.
pub fn is_folder_class(class: &str) -> (r: bool)
    ensures
        r == ends_in_folder(class@),
{
    text::ends_with(text::to_lower(class).as_str(), "folder")
}

// ---------------------------------------------------------------------------
// Finding the jobs
// ---------------------------------------------------------------------------

/// A job that was found, or a folder that is still to be listed.
#[derive(Debug)]
enum Item {
    Folder(String),
    Job(String),
}

/// What stands in the list of a [`Resolver`]: a job that was found, or a folder that is still
/// to be listed.
pub enum ItemModel {
    Folder(Seq<char>),
    Job(Seq<char>),
}

/// The search for the jobs that a command is about.
#[derive(Debug)]
pub struct Resolver {
    names: Vec<String>,
    /// How many of the names were looked at.
    checked: usize,
    recursive: bool,
    /// What is to be dealt with, the next at the end.
    todo: Vec<Item>,
    jobs: Vec<String>,
}

/// What a [`Resolver`] stands for.
pub struct ResolverModel {
    pub names: Seq<Seq<char>>,
    pub checked: nat,
    pub recursive: bool,
    /// What is to be dealt with, in order.
    pub todo: Seq<ItemModel>,
    /// The jobs that were found before it.
    pub jobs: Seq<Seq<char>>,
}

/// What a search needs to know next.
#[derive(Debug)]
pub enum ResolveStep {
    /// The class of the job with this name is to be asked for at this path.
    CheckClass(String, String),
    /// The folder with this name is to be asked for at this path.
    ListFolder(String, String),
    /// Nothing: these are the jobs.
    Done(Vec<String>),
    /// No job was named or found.
    NoJobs,
}

/// What a [`ResolveStep`] stands for.
pub enum ResolveStepModel {
    CheckClass(Seq<char>, Seq<char>),
    ListFolder(Seq<char>, Seq<char>),
    Done(Seq<Seq<char>>),
    NoJobs,
}

/// Why a search ends.
#[derive(Debug)]
pub enum ResolveError {
    /// What was named as a job is a folder.
    FolderAsJob(String),
    /// What was named as a folder is a job.
    JobAsFolder(String),
    /// The server did not list a folder.
    NotListed(String, HttpStatus),
    /// The list of a folder could not be read; the words say why.
    Unreadable(String),
    /// No job was named or found.
    NoJobs,
}

impl Item {
    spec fn model(self) -> ItemModel {
        match self {
            Item::Folder(path) => ItemModel::Folder(path@),
            Item::Job(path) => ItemModel::Job(path@),
        }
    }
}

/// A stack of items, from its top down.
spec fn stacked(stack: Seq<Item>) -> Seq<ItemModel> {
    Seq::new(stack.len(), |i: int| stack[stack.len() - 1 - i].model())
}

impl View for Resolver {
    type V = ResolverModel;

    closed spec fn view(&self) -> ResolverModel {
        ResolverModel {
            names: text::views(self.names@),
            checked: self.checked as nat,
            recursive: self.recursive,
            todo: stacked(self.todo@),
            jobs: text::views(self.jobs@),
        }
    }
}

impl View for ResolveStep {
    type V = ResolveStepModel;

    open spec fn view(&self) -> ResolveStepModel {
        match *self {
            ResolveStep::CheckClass(name, path) => ResolveStepModel::CheckClass(name@, path@),
            ResolveStep::ListFolder(name, path) => ResolveStepModel::ListFolder(name@, path@),
            ResolveStep::Done(jobs) => ResolveStepModel::Done(text::views(jobs@)),
            ResolveStep::NoJobs => ResolveStepModel::NoJobs,
        }
    }
}

/// What an entry of a folder adds to a search: its path where it is a job. A folder is gone
/// into where the search is recursive, and left out otherwise.
pub open spec fn item_of(folder: Seq<char>, entry: EntryModel, recursive: bool) -> Seq<ItemModel> {
    let path = folder + "/"@ + entry.name;
    if !list::folder_class(entry.class) {
        seq![ItemModel::Job(path)]
    } else if recursive {
        seq![ItemModel::Folder(path)]
    } else {
        Seq::empty()
    }
}

/// What the entries of a folder add to a search, in order.
pub open spec fn items_of(folder: Seq<char>, entries: Seq<EntryModel>, recursive: bool) -> Seq<ItemModel>
    decreases entries.len(),
{
    if entries.len() == 0 {
        Seq::empty()
    } else {
        item_of(folder, entries[0], recursive) + items_of(folder, entries.skip(1), recursive)
    }
}

impl ResolverModel {
    pub open spec fn valid(self) -> bool {
        &&& self.checked <= self.names.len()
        &&& self.todo.len() > 0 ==> self.todo[0] is Folder
    }

    /// The search with the jobs at the head of its list counted as found.
    pub open spec fn settled(self) -> ResolverModel
        decreases self.todo.len(),
    {
        if self.todo.len() > 0 {
            match self.todo[0] {
                ItemModel::Job(path) => (ResolverModel {
                    todo: self.todo.skip(1),
                    jobs: self.jobs.push(path),
                    ..self
                }).settled(),
                ItemModel::Folder(_) => self,
            }
        } else {
            self
        }
    }

    /// What the search needs to know next: first the class of each name, then the contents of
    /// each folder.
    pub open spec fn step(self) -> ResolveStepModel {
        if self.checked < self.names.len() {
            let name = self.names[self.checked as int];
            ResolveStepModel::CheckClass(name, client::job_address(name, "/api/json?tree=_class"@))
        } else if self.todo.len() > 0 {
            match self.todo[0] {
                ItemModel::Folder(path) => ResolveStepModel::ListFolder(
                    path,
                    client::job_address(path, "/api/json?tree=_class,jobs[name,_class]"@),
                ),
                ItemModel::Job(_) => ResolveStepModel::NoJobs,
            }
        } else if self.jobs.len() > 0 {
            ResolveStepModel::Done(self.jobs)
        } else {
            ResolveStepModel::NoJobs
        }
    }

    /// The search once the folder at the head of its list has been listed.
    pub open spec fn listed(self, entries: Seq<EntryModel>) -> ResolverModel {
        (ResolverModel {
            todo: items_of(self.todo[0]->Folder_0, entries, self.recursive) + self.todo.skip(1),
            ..self
        }).settled()
    }
}

/// The folders with these paths, as items.
pub open spec fn folder_items(paths: Seq<Seq<char>>) -> Seq<ItemModel> {
    paths.map_values(|p: Seq<char>| ItemModel::Folder(p))
}

/// The entries of a folder.
pub open spec fn entry_views(entries: Seq<JobEntry>) -> Seq<EntryModel> {
    entries.map_values(|e: JobEntry| e@)
}

proof fn lemma_stack_push(stack: Seq<Item>, item: Item)
    ensures
        stacked(stack.push(item)) == seq![item.model()] + stacked(stack),
{
    assert(stacked(stack.push(item)) =~= seq![item.model()] + stacked(stack));
}

proof fn lemma_stack_pop(stack: Seq<Item>)
    requires
        stack.len() > 0,
    ensures
        stacked(stack)[0] == stack.last().model(),
        stacked(stack).skip(1) == stacked(stack.drop_last()),
{
    assert(stacked(stack).skip(1) =~= stacked(stack.drop_last()));
}

proof fn lemma_settled(resolver: ResolverModel)
    ensures
        resolver.settled() == (ResolverModel { todo: resolver.settled().todo, jobs: resolver.settled().jobs, ..resolver }),
        resolver.settled().todo.len() > 0 ==> resolver.settled().todo[0] is Folder,
    decreases resolver.todo.len(),
{
    if resolver.todo.len() > 0 && resolver.todo[0] is Job {
        lemma_settled(
            ResolverModel {
                todo: resolver.todo.skip(1),
                jobs: resolver.jobs.push(resolver.todo[0]->Job_0),
                ..resolver
            },
        );
    }
}

impl Resolver {
    #[verifier::type_invariant]
    spec fn in_order(self) -> bool {
        self@.valid()
    }

    /// The search for the jobs that are meant: those named, in order, and then those in each
    /// of the folders.
    pub fn new(target: &JobTarget) -> (r: Resolver)
        ensures
            r@ == (ResolverModel {
                names: text::views(target.job_names@),
                checked: 0,
                recursive: target.recursive,
                todo: folder_items(text::views(target.paths@)),
                jobs: text::views(target.job_names@),
            }),
            r@.valid(),
    {
        let mut todo: Vec<Item> = Vec::new();
        let ghost paths = text::views(target.paths@);
        let mut i: usize = target.paths.len();
        proof {
            assert(stacked(todo@) =~= folder_items(paths.skip(i as int)));
        }
        while i > 0
            invariant
                i <= target.paths@.len(),
                paths == text::views(target.paths@),
                stacked(todo@) == folder_items(paths.skip(i as int)),
            decreases i,
        {
            i = i - 1;
            let item = Item::Folder(target.paths[i].clone());
            proof {
                lemma_stack_push(todo@, item);
            }
            todo.push(item);
            proof {
                assert(stacked(todo@) =~= folder_items(paths.skip(i as int)));
            }
        }
        proof {
            assert(paths.skip(0) =~= paths);
        }
        let names = copy_list(&target.job_names);
        let jobs = copy_list(&target.job_names);
        Resolver { names, checked: 0, recursive: target.recursive, todo, jobs }
    }

    /// What the search needs to know next.
    pub fn step(&self) -> (r: ResolveStep)
        ensures
            r@ == self@.step(),
            self@.valid(),
    {
        proof {
            use_type_invariant(self);
        }
        if self.checked < self.names.len() {
            let name = self.names[self.checked].clone();
            let path = client::job_path(name.as_str(), "/api/json?tree=_class");
            return ResolveStep::CheckClass(name, path);
        }
        let n: usize = self.todo.len();
        if n > 0 {
            proof {
                lemma_stack_pop(self.todo@);
            }
            return match &self.todo[n - 1] {
                Item::Folder(folder) => ResolveStep::ListFolder(
                    folder.clone(),
                    client::job_path(folder.as_str(), "/api/json?tree=_class,jobs[name,_class]"),
                ),
                Item::Job(_) => ResolveStep::NoJobs,
            };
        }
        if self.jobs.len() > 0 {
            ResolveStep::Done(copy_list(&self.jobs))
        } else {
            ResolveStep::NoJobs
        }
    }

    /// Takes the answer to the question for a class, if it could be read. A name that the
    /// server does not know is let through: the command itself will meet the error. An answer
    /// that was not asked for changes nothing.
    pub fn class_checked(&mut self, status: HttpStatus, info: Option<ClassInfo>) -> (r: Result<(), ResolveError>)
        ensures
            ({
                let folder = http::successful(status@) && (info matches Some(i) && i.class matches Some(c)
                    && ends_in_folder(c@));
                let asked = old(self)@.step() is CheckClass;
                match r {
                    Ok(_) => if asked {
                        !folder && final(self)@ == (ResolverModel { checked: old(self)@.checked + 1, ..old(self)@ })
                    } else {
                        final(self)@ == old(self)@
                    },
                    Err(ResolveError::FolderAsJob(name)) => asked && folder && name@
                        == old(self)@.names[old(self)@.checked as int] && final(self)@ == old(self)@,
                    Err(_) => false,
                }
            }),
            final(self)@.valid(),
            final(self)@.jobs == old(self)@.jobs && final(self)@.todo == old(self)@.todo,
            r is Err ==> final(self)@ == old(self)@,
    {
        proof {
            use_type_invariant(&*self);
        }
        let total: usize = self.names.len();
        if self.checked == total {
            return Ok(());
        }
        let mut folder = false;
        if status.is_success() {
            match &info {
                Some(i) => match &i.class {
                    Some(class) => {
                        folder = is_folder_class(class.as_str());
                    },
                    None => {},
                },
                None => {},
            }
        }
        if folder {
            return Err(ResolveError::FolderAsJob(self.names[self.checked].clone()));
        }
        self.checked = self.checked + 1;
        Ok(())
    }

    /// Takes the answer to the question for a folder; where it could not be read, the words
    /// say why. An answer that was not asked for changes nothing.
    pub fn folder_listed(&mut self, status: HttpStatus, info: Result<FolderInfo, String>) -> (r: Result<
        (),
        ResolveError,
    >)
        ensures
            ({
                let asked = old(self)@.step() is ListFolder;
                let folder = old(self)@.todo[0]->Folder_0;
                match r {
                    Ok(_) => if asked {
                        &&& http::successful(status@)
                        &&& info matches Ok(i) && (i.class matches Some(c) ==> ends_in_folder(c@)) && final(self)@
                            == old(self)@.listed(entry_views(i.jobs@))
                    } else {
                        final(self)@ == old(self)@
                    },
                    Err(ResolveError::NotListed(path, s)) => {
                        &&& asked && !http::successful(status@)
                        &&& path@ == folder && s == status && final(self)@ == old(self)@
                    },
                    Err(ResolveError::Unreadable(words)) => {
                        &&& asked && http::successful(status@)
                        &&& info matches Err(e) && words@ == e@ && final(self)@ == old(self)@
                    },
                    Err(ResolveError::JobAsFolder(path)) => {
                        &&& asked && http::successful(status@)
                        &&& info matches Ok(i) && i.class matches Some(c) && !ends_in_folder(c@)
                        &&& path@ == folder && final(self)@ == old(self)@
                    },
                    Err(_) => false,
                }
            }),
            final(self)@.valid(),
    {
        proof {
            use_type_invariant(&*self);
        }
        let n: usize = self.todo.len();
        if self.checked < self.names.len() || n == 0 {
            return Ok(());
        }
        proof {
            lemma_stack_pop(self.todo@);
        }
        let folder = match &self.todo[n - 1] {
            Item::Folder(folder) => folder.clone(),
            Item::Job(path) => path.clone(),
        };
        if !status.is_success() {
            return Err(ResolveError::NotListed(folder, status));
        }
        let info = match info {
            Ok(info) => info,
            Err(words) => return Err(ResolveError::Unreadable(words)),
        };
        match &info.class {
            Some(class) => if !is_folder_class(class.as_str()) {
                return Err(ResolveError::JobAsFolder(folder));
            },
            None => {},
        }
        let mut todo: Vec<Item> = Vec::new();
        let mut jobs: Vec<String> = Vec::new();
        let ghost before = self@;
        std::mem::swap(&mut todo, &mut self.todo);
        std::mem::swap(&mut jobs, &mut self.jobs);
        todo.truncate(n - 1);
        proof {
            assert(stacked(todo@) =~= before.todo.skip(1));
        }
        expand(&mut todo, folder.as_str(), &info.jobs, self.recursive);
        let ghost found = ResolverModel { todo: stacked(todo@), ..before };
        settle(&mut todo, &mut jobs, Ghost(found));
        proof {
            lemma_settled(found);
            if todo@.len() > 0 {
                lemma_stack_pop(todo@);
            }
        }
        self.jobs = jobs;
        self.todo = todo;
        Ok(())
    }
}

/// Puts what the entries of a folder add to a search on top of the stack.
fn expand(todo: &mut Vec<Item>, folder: &str, jobs: &Vec<JobEntry>, recursive: bool)
    ensures
        stacked(final(todo)@) == items_of(folder@, entry_views(jobs@), recursive) + stacked(old(todo)@),
{
    let ghost rest = stacked(todo@);
    let ghost entries = entry_views(jobs@);
    let mut i: usize = jobs.len();
    proof {
        assert(items_of(folder@, entries.skip(i as int), recursive) + rest =~= rest);
    }
    while i > 0
        invariant
            i <= jobs@.len(),
            entries == entry_views(jobs@),
            stacked(todo@) == items_of(folder@, entries.skip(i as int), recursive) + rest,
        decreases i,
    {
        i = i - 1;
        let ghost later = items_of(folder@, entries.skip(i + 1), recursive);
        let ghost added = item_of(folder@, entries[i as int], recursive);
        let is_folder = text::contains(jobs[i].class.as_str(), "Folder") || text::contains(
            jobs[i].class.as_str(),
            "folder",
        );
        let path = text::cat3(folder, "/", jobs[i].name.as_str());
        proof {
            assert(entries.skip(i as int)[0] == entries[i as int]);
            assert(entries.skip(i as int).skip(1) =~= entries.skip(i + 1));
        }
        if is_folder {
            if recursive {
                let item = Item::Folder(path);
                proof {
                    lemma_stack_push(todo@, item);
                }
                todo.push(item);
            }
        } else {
            let item = Item::Job(path);
            proof {
                lemma_stack_push(todo@, item);
            }
            todo.push(item);
        }
        proof {
            assert(added + (later + rest) =~= (added + later) + rest);
            assert(stacked(todo@) =~= added + (later + rest));
        }
    }
    proof {
        assert(entries.skip(0) =~= entries);
    }
}

/// Moves the jobs at the top of the stack to those that were found.
fn settle(todo: &mut Vec<Item>, jobs: &mut Vec<String>, resolver: Ghost<ResolverModel>)
    requires
        resolver@.todo == stacked(old(todo)@),
        resolver@.jobs == text::views(old(jobs)@),
    ensures
        resolver@.settled().todo == stacked(final(todo)@),
        resolver@.settled().jobs == text::views(final(jobs)@),
{
    while todo.len() > 0
        invariant
            (ResolverModel { todo: stacked(todo@), jobs: text::views(jobs@), ..resolver@ }).settled()
                == resolver@.settled(),
        ensures
            resolver@.settled().todo == stacked(todo@),
            resolver@.settled().jobs == text::views(jobs@),
        decreases todo@.len(),
    {
        let n: usize = todo.len();
        proof {
            lemma_stack_pop(todo@);
        }
        let path = match &todo[n - 1] {
            Item::Folder(_) => {
                break;
            },
            Item::Job(path) => path.clone(),
        };
        let ghost found = text::views(jobs@);
        let ghost stack = todo@;
        jobs.push(path);
        todo.truncate(n - 1);
        proof {
            assert(text::views(jobs@) =~= found.push(path@));
            assert(todo@ =~= stack.drop_last());
        }
    }
}

// ---------------------------------------------------------------------------
// The outcome of a search
// ---------------------------------------------------------------------------

/// What a folder holds, all the way down.
pub enum Tree {
    Job(Seq<char>, Seq<char>),
    Folder(Seq<char>, Seq<char>, Seq<Tree>),
}

/// What is to be dealt with in a search, with what each folder holds.
pub enum Pending {
    Folder(Seq<char>, Seq<Tree>),
    Job(Seq<char>),
}

impl Tree {
    /// The entry that the server lists.
    pub open spec fn entry(self) -> EntryModel {
        match self {
            Tree::Job(name, class) => EntryModel { name, class },
            Tree::Folder(name, class, _) => EntryModel { name, class },
        }
    }

    /// Whether the classes of all folders, and of no jobs, are those of folders.
    pub open spec fn plausible(self) -> bool
        decreases self,
    {
        match self {
            Tree::Job(_, class) => !list::folder_class(class),
            Tree::Folder(_, class, inner) => list::folder_class(class) && forall|i: int|
                0 <= i < inner.len() ==> (#[trigger] inner[i]).plausible(),
        }
    }
}

/// Whether that is so of everything in a folder.
pub open spec fn plausible_all(trees: Seq<Tree>) -> bool {
    forall|i: int| 0 <= i < trees.len() ==> (#[trigger] trees[i]).plausible()
}

/// The jobs in a folder, in the order in which they are listed; those in its folders too,
/// each in the place of the folder, where the search is recursive.
pub open spec fn jobs_in(folder: Seq<char>, trees: Seq<Tree>, recursive: bool) -> Seq<Seq<char>>
    decreases trees,
{
    if trees.len() == 0 {
        Seq::empty()
    } else {
        let first = match trees[0] {
            Tree::Job(name, _) => seq![folder + "/"@ + name],
            Tree::Folder(name, _, inner) => if recursive {
                jobs_in(folder + "/"@ + name, inner, recursive)
            } else {
                Seq::empty()
            },
        };
        first + jobs_in(folder, trees.skip(1), recursive)
    }
}

/// The jobs that are found in what is to be dealt with, in order.
pub open spec fn jobs_of(pending: Seq<Pending>, recursive: bool) -> Seq<Seq<char>>
    decreases pending.len(),
{
    if pending.len() == 0 {
        Seq::empty()
    } else {
        let first = match pending[0] {
            Pending::Job(path) => seq![path],
            Pending::Folder(path, trees) => jobs_in(path, trees, recursive),
        };
        first + jobs_of(pending.skip(1), recursive)
    }
}

/// What the server lists of a folder.
pub open spec fn entries_of(trees: Seq<Tree>) -> Seq<EntryModel> {
    trees.map_values(|t: Tree| t.entry())
}

/// The items that stand for what is to be dealt with.
pub open spec fn pending_items(pending: Seq<Pending>) -> Seq<ItemModel> {
    pending.map_values(
        |p: Pending|
            match p {
                Pending::Folder(path, _) => ItemModel::Folder(path),
                Pending::Job(path) => ItemModel::Job(path),
            },
    )
}

/// What the contents of a folder add to what is to be dealt with.
pub open spec fn pending_in(folder: Seq<char>, trees: Seq<Tree>, recursive: bool) -> Seq<Pending>
    decreases trees.len(),
{
    if trees.len() == 0 {
        Seq::empty()
    } else {
        let first = match trees[0] {
            Tree::Job(name, _) => seq![Pending::Job(folder + "/"@ + name)],
            Tree::Folder(name, _, inner) => if recursive {
                seq![Pending::Folder(folder + "/"@ + name, inner)]
            } else {
                Seq::empty()
            },
        };
        first + pending_in(folder, trees.skip(1), recursive)
    }
}

/// What is to be dealt with once the jobs at its head count as found.
pub open spec fn without_jobs(pending: Seq<Pending>) -> Seq<Pending>
    decreases pending.len(),
{
    if pending.len() > 0 && pending[0] is Job {
        without_jobs(pending.skip(1))
    } else {
        pending
    }
}

/// The jobs that a search ends with when so many folders can be asked for, one after the
/// other, and hold what `pending` says; `None` where there are more folders to ask for.
pub open spec fn outcome(resolver: ResolverModel, pending: Seq<Pending>, questions: nat) -> Option<Seq<Seq<char>>>
    decreases questions,
{
    if resolver.todo.len() == 0 {
        Some(resolver.jobs)
    } else if questions == 0 {
        None
    } else {
        let path = pending[0]->Folder_0;
        let trees = pending[0]->Folder_1;
        outcome(
            resolver.listed(entries_of(trees)),
            without_jobs(pending_in(path, trees, resolver.recursive) + pending.skip(1)),
            (questions - 1) as nat,
        )
    }
}

/// The number of folders in a folder, all the way down.
pub open spec fn folders_in(trees: Seq<Tree>) -> nat
    decreases trees,
{
    if trees.len() == 0 {
        0
    } else {
        folders_in(trees.skip(1)) + match trees[0] {
            Tree::Job(_, _) => 0,
            Tree::Folder(_, _, inner) => 1 + folders_in(inner),
        }
    }
}

/// The number of folders in what is to be dealt with, all the way down.
pub open spec fn folders_of(pending: Seq<Pending>) -> nat
    decreases pending.len(),
{
    if pending.len() == 0 {
        0
    } else {
        folders_of(pending.skip(1)) + match pending[0] {
            Pending::Job(_) => 0,
            Pending::Folder(_, trees) => 1 + folders_in(trees),
        }
    }
}

/// Whether every folder in what is to be dealt with holds folders and jobs that can be told
/// apart by their classes.
pub open spec fn plausible_pending(pending: Seq<Pending>) -> bool {
    forall|i: int| 0 <= i < pending.len() ==> ((#[trigger] pending[i]) matches Pending::Folder(_, trees) ==> plausible_all(trees))
}

proof fn lemma_pending_in(folder: Seq<char>, trees: Seq<Tree>, recursive: bool)
    requires
        plausible_all(trees),
    ensures
        items_of(folder, entries_of(trees), recursive) == pending_items(pending_in(folder, trees, recursive)),
        plausible_pending(pending_in(folder, trees, recursive)),
    decreases trees.len(),
{
    if trees.len() > 0 {
        let rest = trees.skip(1);
        assert(trees[0].plausible());
        assert forall|i: int| 0 <= i < rest.len() implies (#[trigger] rest[i]).plausible() by {
            assert(rest[i] == trees[i + 1]);
        }
        lemma_pending_in(folder, rest, recursive);
        assert(entries_of(trees).skip(1) =~= entries_of(rest));
        let later = pending_in(folder, rest, recursive);
        let all = pending_in(folder, trees, recursive);
        assert(pending_items(all) =~= item_of(folder, trees[0].entry(), recursive) + pending_items(later));
        assert forall|i: int| 0 <= i < all.len() implies ((#[trigger] all[i]) matches Pending::Folder(_, t)
            ==> plausible_all(t)) by {
            let k = all.len() - later.len();
            if i >= k {
                assert(all[i] == later[i - k]);
            }
        }
    } else {
        assert(items_of(folder, entries_of(trees), recursive) =~= pending_items(pending_in(folder, trees, recursive)));
    }
}

proof fn lemma_jobs_of(folder: Seq<char>, trees: Seq<Tree>, rest: Seq<Pending>, recursive: bool)
    ensures
        jobs_of(pending_in(folder, trees, recursive) + rest, recursive) == jobs_in(folder, trees, recursive) + jobs_of(
            rest,
            recursive,
        ),
        folders_of(pending_in(folder, trees, recursive) + rest) <= folders_in(trees) + folders_of(rest),
    decreases trees.len(),
{
    let all = pending_in(folder, trees, recursive) + rest;
    if trees.len() > 0 {
        let later = pending_in(folder, trees.skip(1), recursive) + rest;
        lemma_jobs_of(folder, trees.skip(1), rest, recursive);
        let tail = jobs_in(folder, trees.skip(1), recursive);
        match trees[0] {
            Tree::Job(name, _) => {
                let path = folder + "/"@ + name;
                assert(all[0] == Pending::Job(path));
                assert(all.skip(1) =~= later);
                assert(seq![path] + (tail + jobs_of(rest, recursive)) =~= (seq![path] + tail) + jobs_of(
                    rest,
                    recursive,
                ));
            },
            Tree::Folder(name, _, inner) => {
                let path = folder + "/"@ + name;
                if recursive {
                    assert(all[0] == Pending::Folder(path, inner));
                    assert(all.skip(1) =~= later);
                    let found = jobs_in(path, inner, recursive);
                    assert(found + (tail + jobs_of(rest, recursive)) =~= (found + tail) + jobs_of(rest, recursive));
                } else {
                    assert(all =~= later);
                    assert(jobs_in(folder, trees, recursive) =~= tail);
                }
            },
        }
    } else {
        assert(all =~= rest);
        assert(jobs_in(folder, trees, recursive) + jobs_of(rest, recursive) =~= jobs_of(rest, recursive));
    }
}

proof fn lemma_without_jobs(resolver: ResolverModel, pending: Seq<Pending>)
    requires
        resolver.todo == pending_items(pending),
        plausible_pending(pending),
    ensures
        resolver.settled().todo == pending_items(without_jobs(pending)),
        resolver.settled().jobs + jobs_of(without_jobs(pending), resolver.recursive) == resolver.jobs + jobs_of(
            pending,
            resolver.recursive,
        ),
        plausible_pending(without_jobs(pending)),
        folders_of(without_jobs(pending)) <= folders_of(pending),
    decreases pending.len(),
{
    if pending.len() > 0 {
        assert(resolver.todo[0] == pending_items(pending)[0]);
        if let Pending::Job(path) = pending[0] {
            let rest = pending.skip(1);
            let next = ResolverModel { todo: resolver.todo.skip(1), jobs: resolver.jobs.push(path), ..resolver };
            assert(next.todo =~= pending_items(rest));
            assert forall|i: int| 0 <= i < rest.len() implies ((#[trigger] rest[i]) matches Pending::Folder(_, t)
                ==> plausible_all(t)) by {
                assert(rest[i] == pending[i + 1]);
            }
            lemma_without_jobs(next, rest);
            assert(resolver.jobs.push(path) + jobs_of(rest, resolver.recursive) =~= resolver.jobs + (seq![path]
                + jobs_of(rest, resolver.recursive)));
        }
    }
}

/// Whatever the folders hold, a search ends with the jobs that it began with and then those in
/// its folders, in the order in which they are listed, after as many questions as there are
/// folders to go into at the most.
pub proof fn law_resolver_finds_jobs_in_order(resolver: ResolverModel, pending: Seq<Pending>, questions: nat)
    requires
        resolver.valid(),
        resolver.todo == pending_items(pending),
        plausible_pending(pending),
    ensures
        outcome(resolver, pending, questions) matches Some(found) ==> found == resolver.jobs + jobs_of(
            pending,
            resolver.recursive,
        ),
        questions >= folders_of(pending) ==> outcome(resolver, pending, questions) is Some,
    decreases questions,
{
    if resolver.todo.len() == 0 {
        assert(resolver.jobs + jobs_of(pending, resolver.recursive) =~= resolver.jobs);
    } else {
        assert(resolver.todo[0] == pending_items(pending)[0]);
        let path = pending[0]->Folder_0;
        let trees = pending[0]->Folder_1;
        let rest = pending.skip(1);
        let inner = pending_in(path, trees, resolver.recursive);
        let all = inner + rest;
        if questions > 0 {
            assert(plausible_all(trees));
            lemma_pending_in(path, trees, resolver.recursive);
            lemma_jobs_of(path, trees, rest, resolver.recursive);
            let listed = ResolverModel {
                todo: items_of(path, entries_of(trees), resolver.recursive) + resolver.todo.skip(1),
                ..resolver
            };
            assert(listed.todo =~= pending_items(all));
            assert forall|i: int| 0 <= i < all.len() implies ((#[trigger] all[i]) matches Pending::Folder(_, t)
                ==> plausible_all(t)) by {
                if i < inner.len() {
                    assert(all[i] == inner[i]);
                } else {
                    assert(all[i] == pending[i - inner.len() + 1]);
                }
            }
            lemma_without_jobs(listed, all);
            lemma_settled(listed);
            law_resolver_finds_jobs_in_order(
                resolver.listed(entries_of(trees)),
                without_jobs(all),
                (questions - 1) as nat,
            );
        }
    }
}

/// The same texts once more.
pub(crate) fn copy_list(list: &Vec<String>) -> (r: Vec<String>)
    ensures
        text::views(r@) == text::views(list@),
{
    let mut out: Vec<String> = Vec::new();
    let mut i: usize = 0;
    while i < list.len()
        invariant
            i <= list@.len(),
            out@.len() == i,
            forall|k: int| 0 <= k < i ==> (#[trigger] out@[k])@ == list@[k]@,
        decreases list@.len() - i,
    {
        out.push(list[i].clone());
        i = i + 1;
    }
    proof {
        assert(text::views(out@) =~= text::views(list@));
    }
    out
}

impl ResolveError {
    pub open spec fn words(self) -> Seq<char> {
        match self {
            ResolveError::FolderAsJob(name) => "'"@ + name@ + "' is a folder — use --path instead of --job-name"@,
            ResolveError::JobAsFolder(name) => "'"@ + name@
                + "' is a job, not a folder — use --job-name instead of --path"@,
            ResolveError::NotListed(name, status) => "could not list '"@ + name@ + "': HTTP "@ + http::status_text(
                status@,
            ) + " — is it a job? Try --job-name instead of --path"@,
            ResolveError::Unreadable(words) => "parsing folder JSON: "@ + words@,
            ResolveError::NoJobs => "no jobs targeted — provide --path or at least one --job-name"@,
        }
    }

    /// The error in words.
    pub fn message(&self) -> (r: String)
        ensures
            r@ == self.words(),
    {
        match self {
            ResolveError::FolderAsJob(name) => text::cat3(
                "'",
                name.as_str(),
                "' is a folder — use --path instead of --job-name",
            ),
            ResolveError::JobAsFolder(name) => text::cat3(
                "'",
                name.as_str(),
                "' is a job, not a folder — use --job-name instead of --path",
            ),
            ResolveError::NotListed(name, status) => text::cat5(
                "could not list '",
                name.as_str(),
                "': HTTP ",
                status.text().as_str(),
                " — is it a job? Try --job-name instead of --path",
            ),
            ResolveError::Unreadable(words) => text::cat2("parsing folder JSON: ", words.as_str()),
            ResolveError::NoJobs => "no jobs targeted — provide --path or at least one --job-name".to_owned(),
        }
    }
}

// ---------------------------------------------------------------------------
// Laws
// ---------------------------------------------------------------------------

/// A class is that of a folder where its name ends in the word, in whatever case it is written.
/// A multibranch pipeline, whose class name ends otherwise, is a job.
pub proof fn law_ends_in_folder(class: Seq<char>, word: Seq<char>)
    ensures
        text::lowered(word) == "folder"@ ==> ends_in_folder(class + word),
        ends_in_folder(class + "Folder"@) && ends_in_folder(class + "folder"@),
        ends_in_folder(class) ==> class.len() >= 6 && (class.last() == 'r' || class.last() == 'R'),
        !ends_in_folder(class + "WorkflowMultiBranchProject"@),
{
    reveal_strlit("Folder");
    reveal_strlit("folder");
    reveal_strlit("WorkflowMultiBranchProject");
    assert(text::lower('F') == 'f' && text::lower('R') == 'r');
    assert(text::lowered("Folder"@) =~= "folder"@);
    assert(text::lowered("folder"@) =~= "folder"@);
    lemma_lowered_end(class, word);
    lemma_lowered_end(class, "Folder"@);
    lemma_lowered_end(class, "folder"@);
    lemma_last_of_folder(class);
    lemma_last_of_folder(class + "WorkflowMultiBranchProject"@);
    assert((class + "WorkflowMultiBranchProject"@).last() == 't');
}

proof fn lemma_lowered_end(class: Seq<char>, word: Seq<char>)
    ensures
        text::lowered(word) == "folder"@ ==> ends_in_folder(class + word),
{
    let low = text::lowered(class + word);
    assert(low.subrange(low.len() - word.len(), low.len() as int) =~= text::lowered(word));
}

proof fn lemma_last_of_folder(class: Seq<char>)
    ensures
        ends_in_folder(class) ==> class.len() >= 6 && (class.last() == 'r' || class.last() == 'R'),
{
    reveal_strlit("folder");
    if ends_in_folder(class) {
        let low = text::lowered(class);
        text::law_lowered(class);
        let n = low.len() as int;
        assert(low.subrange(n - 6, n)[5] == "folder"@[5]);
        assert(low[n - 1] == 'r');
        assert(text::lower(class[n - 1]) == 'r');
    }
}

/// What the entries of a folder add to a search: each job its path, below the folder; each
/// folder its path, where the search is recursive, and nothing where it is not; one entry after
/// the other.
pub proof fn law_items_of(
    folder: Seq<char>,
    entries: Seq<EntryModel>,
    more: Seq<EntryModel>,
    entry: EntryModel,
    recursive: bool,
)
    ensures
        items_of(folder, entries + more, recursive) == items_of(folder, entries, recursive) + items_of(
            folder,
            more,
            recursive,
        ),
        !list::folder_class(entry.class) ==> items_of(folder, seq![entry], recursive) == seq![
            ItemModel::Job(folder + "/"@ + entry.name),
        ],
        list::folder_class(entry.class) ==> items_of(folder, seq![entry], true) == seq![
            ItemModel::Folder(folder + "/"@ + entry.name),
        ] && items_of(folder, seq![entry], false).len() == 0,
    decreases entries.len(),
{
    let one = seq![entry];
    assert(one.skip(1) =~= Seq::<EntryModel>::empty());
    assert(items_of(folder, one.skip(1), recursive) =~= Seq::<ItemModel>::empty());
    assert(items_of(folder, one.skip(1), true) =~= Seq::<ItemModel>::empty());
    assert(items_of(folder, one.skip(1), false) =~= Seq::<ItemModel>::empty());
    assert(items_of(folder, one, recursive) =~= item_of(folder, entry, recursive));
    assert(items_of(folder, one, true) =~= item_of(folder, entry, true));
    assert(items_of(folder, one, false) =~= item_of(folder, entry, false));
    if entries.len() == 0 {
        assert(entries + more =~= more);
        assert(items_of(folder, entries, recursive) + items_of(folder, more, recursive) =~= items_of(
            folder,
            more,
            recursive,
        ));
    } else {
        law_items_of(folder, entries.skip(1), more, entry, recursive);
        assert((entries + more).skip(1) =~= entries.skip(1) + more);
        assert(items_of(folder, entries + more, recursive) =~= items_of(folder, entries, recursive) + items_of(
            folder,
            more,
            recursive,
        ));
    }
}

/// The jobs in a folder: each job below the folder's path; those in a folder in it, in its
/// place, where the search is recursive, and none of them where it is not; one after the other.
pub proof fn law_jobs_in(
    folder: Seq<char>,
    trees: Seq<Tree>,
    more: Seq<Tree>,
    name: Seq<char>,
    class: Seq<char>,
    inner: Seq<Tree>,
    recursive: bool,
)
    ensures
        jobs_in(folder, trees + more, recursive) == jobs_in(folder, trees, recursive) + jobs_in(
            folder,
            more,
            recursive,
        ),
        jobs_in(folder, seq![Tree::Job(name, class)], recursive) == seq![folder + "/"@ + name],
        jobs_in(folder, seq![Tree::Folder(name, class, inner)], true) == jobs_in(folder + "/"@ + name, inner, true),
        jobs_in(folder, seq![Tree::Folder(name, class, inner)], false).len() == 0,
    decreases trees.len(),
{
    let job = seq![Tree::Job(name, class)];
    let below = seq![Tree::Folder(name, class, inner)];
    assert(job.skip(1) =~= Seq::<Tree>::empty());
    assert(below.skip(1) =~= Seq::<Tree>::empty());
    assert(jobs_in(folder, Seq::<Tree>::empty(), recursive) =~= Seq::<Seq<char>>::empty());
    assert(jobs_in(folder, Seq::<Tree>::empty(), true) =~= Seq::<Seq<char>>::empty());
    assert(jobs_in(folder, Seq::<Tree>::empty(), false) =~= Seq::<Seq<char>>::empty());
    assert(jobs_in(folder, job, recursive) =~= seq![folder + "/"@ + name]);
    assert(jobs_in(folder, below, true) =~= jobs_in(folder + "/"@ + name, inner, true));
    if trees.len() == 0 {
        assert(trees + more =~= more);
        assert(jobs_in(folder, trees, recursive) + jobs_in(folder, more, recursive) =~= jobs_in(
            folder,
            more,
            recursive,
        ));
    } else {
        law_jobs_in(folder, trees.skip(1), more, name, class, inner, recursive);
        assert((trees + more).skip(1) =~= trees.skip(1) + more);
        assert(jobs_in(folder, trees + more, recursive) =~= jobs_in(folder, trees, recursive) + jobs_in(
            folder,
            more,
            recursive,
        ));
    }
}

/// The class of every name is asked for before any folder is, and every folder before the search
/// is over. It is over with the jobs that were found, or with none.
pub proof fn law_resolver_asks_in_order(resolver: ResolverModel)
    requires
        resolver.valid(),
    ensures
        resolver.step() is CheckClass <==> resolver.checked < resolver.names.len(),
        resolver.step() matches ResolveStepModel::CheckClass(name, path) ==> name
            == resolver.names[resolver.checked as int] && path == "job/"@ + client::job_url(name)
            + "/api/json?tree=_class"@,
        resolver.step() is ListFolder <==> resolver.checked == resolver.names.len() && resolver.todo.len() > 0,
        resolver.step() matches ResolveStepModel::ListFolder(folder, path) ==> resolver.todo[0] == ItemModel::Folder(
            folder,
        ) && path == "job/"@ + client::job_url(folder) + "/api/json?tree=_class,jobs[name,_class]"@,
        resolver.step() matches ResolveStepModel::Done(jobs) ==> jobs == resolver.jobs && jobs.len() > 0
            && resolver.todo.len() == 0,
        resolver.step() is NoJobs <==> resolver.checked == resolver.names.len() && resolver.todo.len() == 0
            && resolver.jobs.len() == 0,
{
}

/// The jobs that were found so far stay, in front, and the names are kept: listing a folder adds
/// to them.
pub proof fn law_found_jobs_stay(resolver: ResolverModel, entries: Seq<EntryModel>)
    requires
        resolver.valid(),
        resolver.todo.len() > 0,
    ensures
        resolver.jobs.is_prefix_of(resolver.listed(entries).jobs),
        resolver.listed(entries).names == resolver.names,
        resolver.listed(entries).checked == resolver.checked,
        resolver.listed(entries).recursive == resolver.recursive,
        resolver.listed(entries).valid(),
{
    let found = ResolverModel {
        todo: items_of(resolver.todo[0]->Folder_0, entries, resolver.recursive) + resolver.todo.skip(1),
        ..resolver
    };
    lemma_settled(found);
    lemma_settled_keeps(found);
}

proof fn lemma_settled_keeps(resolver: ResolverModel)
    ensures
        resolver.jobs.is_prefix_of(resolver.settled().jobs),
    decreases resolver.todo.len(),
{
    if resolver.todo.len() > 0 && resolver.todo[0] is Job {
        let next = ResolverModel {
            todo: resolver.todo.skip(1),
            jobs: resolver.jobs.push(resolver.todo[0]->Job_0),
            ..resolver
        };
        lemma_settled_keeps(next);
        let all = resolver.settled().jobs;
        assert(all.subrange(0, next.jobs.len() as int) =~= next.jobs);
        assert forall|i: int| 0 <= i < resolver.jobs.len() implies all[i] == resolver.jobs[i] by {
            assert(all.subrange(0, next.jobs.len() as int)[i] == next.jobs[i]);
        }
        assert(all.subrange(0, resolver.jobs.len() as int) =~= resolver.jobs);
    } else {
        assert(resolver.jobs.subrange(0, resolver.jobs.len() as int) =~= resolver.jobs);
    }
}

/// Settling a search moves jobs from the head of its list behind those that were found, in
/// order: what was found, and then what is left, is the same list as before, up to the first
/// folder and no further.
pub proof fn law_settled(resolver: ResolverModel, paths: Seq<Seq<char>>, rest: Seq<ItemModel>)
    requires
        resolver.todo == paths.map_values(|p: Seq<char>| ItemModel::Job(p)) + rest,
        rest.len() > 0 ==> rest[0] is Folder,
    ensures
        resolver.settled().jobs == resolver.jobs + paths,
        resolver.settled().todo == rest,
    decreases paths.len(),
{
    let items = paths.map_values(|p: Seq<char>| ItemModel::Job(p));
    if paths.len() == 0 {
        assert(resolver.todo =~= rest);
        assert(resolver.jobs + paths =~= resolver.jobs);
    } else {
        assert(resolver.todo[0] == items[0]);
        let next = ResolverModel { todo: resolver.todo.skip(1), jobs: resolver.jobs.push(paths[0]), ..resolver };
        assert(next.todo =~= paths.skip(1).map_values(|p: Seq<char>| ItemModel::Job(p)) + rest);
        law_settled(next, paths.skip(1), rest);
        assert(next.jobs + paths.skip(1) =~= resolver.jobs + paths);
    }
}

/// The errors of a search name what they are about, and point to the other option.
pub proof fn law_resolve_errors_name_their_cause(name: String, status: HttpStatus)
    ensures
        text::occurs(ResolveError::FolderAsJob(name).words(), "'"@ + name@ + "'"@),
        text::occurs(ResolveError::JobAsFolder(name).words(), "'"@ + name@ + "'"@),
        text::occurs(ResolveError::NotListed(name, status).words(), "'"@ + name@ + "'"@),
        text::occurs(ResolveError::NotListed(name, status).words(), http::status_text(status@)),
        name@.is_suffix_of(ResolveError::Unreadable(name).words()),
{
    reveal_strlit("'");
    reveal_strlit("' is a folder — use --path instead of --job-name");
    reveal_strlit("' is a job, not a folder — use --job-name instead of --path");
    reveal_strlit("could not list '");
    reveal_strlit("': HTTP ");
    let quoted = "'"@ + name@ + "'"@;
    assert(ResolveError::FolderAsJob(name).words().subrange(0int, 0int + quoted.len()) =~= quoted);
    assert(ResolveError::JobAsFolder(name).words().subrange(0int, 0int + quoted.len()) =~= quoted);
    let words = ResolveError::NotListed(name, status).words();
    assert(words.subrange(15int, 15int + quoted.len()) =~= quoted);
    let shown = http::status_text(status@);
    let at = 24int + name@.len();
    assert(words.subrange(at, at + shown.len()) =~= shown);
    text::lemma_suffix("parsing folder JSON: "@, name@);
}

/// The folders that are named come in order, and so do the entries of a folder, with their names
/// and classes.
pub proof fn law_folders_and_entries(paths: Seq<Seq<char>>, entries: Seq<JobEntry>)
    ensures
        folder_items(paths).len() == paths.len(),
        forall|i: int| 0 <= i < paths.len() ==> #[trigger] folder_items(paths)[i] == ItemModel::Folder(paths[i]),
        entry_views(entries).len() == entries.len(),
        forall|i: int|
            0 <= i < entries.len() ==> (#[trigger] entry_views(entries)[i]).name == entries[i].name@ && entry_views(
                entries,
            )[i].class == entries[i].class@,
{
}

} // verus!
