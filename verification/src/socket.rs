//! Choosing where the compositor's socket lives.
//!
//! The runtime directory of the session is tried first, then a private directory
//! for temporary files. In each, the names `wayland-1` to `wayland-32` are tried
//! in turn. [`Binder`] says what to do next; the caller does it and reports how
//! it went.

use vstd::prelude::*;

use crate::scan;
use crate::task;
use crate::text;

verus! {

/// The last socket number that is tried.
pub const LAST_NUMBER: u32 = 32;

/// Whether a path starts at the root.
pub open spec fn is_absolute(path: Seq<char>) -> bool {
    path.len() > 0 && path[0] == '/'
}

/// The components of a path that count.
pub open spec fn components(parts: Seq<Seq<char>>) -> Seq<Seq<char>>
    decreases parts.len(),
{
    if parts.len() == 0 {
        Seq::empty()
    } else {
        let before = components(parts.drop_last());
        if parts.last().len() == 0 || parts.last() == "."@ {
            before
        } else {
            before.push(parts.last())
        }
    }
}

/// Whether two paths are the same: in their text, or, from the root, in their
/// components.
pub open spec fn same_path(a: Seq<char>, b: Seq<char>) -> bool {
    a == b || (is_absolute(a) && is_absolute(b) && components(scan::pieces(a, '/')) == components(
        scan::pieces(b, '/'),
    ))
}

/// `name` inside the directory `dir`.
pub open spec fn inside(dir: Seq<char>, name: Seq<char>) -> Seq<char> {
    if dir.len() == 0 {
        name
    } else if dir.last() == '/' {
        dir + name
    } else {
        dir + "/"@ + name
    }
}

/// Executable form of [`is_absolute`].
fn absolute(path: &str) -> (r: bool)
    ensures
        r == is_absolute(path@),
{
    let v = text::chars_of(path);
    v.len() > 0 && v[0] == '/'
}

/// Executable form of [`components`].
fn component_list(path: &str) -> (r: Vec<String>)
    ensures
        text::views(r@) == components(scan::pieces(path@, '/')),
{
    let v = text::chars_of(path);
    let dot = text::chars_of(".");
    let parts = scan::split_at_char(&v, '/');
    let ghost all = scan::rows(parts@);
    let mut out: Vec<String> = Vec::new();
    let mut i: usize = 0;
    assert(text::views(out@) =~= components(all.take(0)));
    while i < parts.len()
        invariant
            i <= parts@.len(),
            all == scan::rows(parts@),
            dot@ == "."@,
            text::views(out@) == components(all.take(i as int)),
        decreases parts@.len() - i,
    {
        assert(all.take(i as int + 1).drop_last() =~= all.take(i as int));
        assert(all.take(i as int + 1).last() == parts@[i as int]@);
        if parts[i].len() > 0 && !text::same_chars(&parts[i], &dot) {
            let ghost before = out@;
            let part = text::text_of(&parts[i]);
            out.push(part);
            assert(text::views(out@) =~= text::views(before).push(part@));
        }
        i += 1;
    }
    assert(all.take(i as int) =~= all);
    out
}

/// Whether two lists of words are equal.
fn same_words(a: &Vec<String>, b: &Vec<String>) -> (r: bool)
    ensures
        r == (text::views(a@) == text::views(b@)),
{
    if a.len() != b.len() {
        assert(text::views(a@).len() != text::views(b@).len());
        return false;
    }
    let mut i: usize = 0;
    while i < a.len()
        invariant
            i <= a@.len(),
            a@.len() == b@.len(),
            forall|j: int| 0 <= j < i ==> (#[trigger] a@[j])@ == b@[j]@,
        decreases a@.len() - i,
    {
        if !text::same_text(&a[i], &b[i]) {
            assert(text::views(a@)[i as int] != text::views(b@)[i as int]);
            return false;
        }
        i += 1;
    }
    assert(text::views(a@) =~= text::views(b@));
    true
}

/// Executable form of [`same_path`].
fn paths_equal(a: &str, b: &str) -> (r: bool)
    ensures
        r == same_path(a@, b@),
{
    if text::same_text(a, b) {
        return true;
    }
    if !absolute(a) || !absolute(b) {
        return false;
    }
    let x = component_list(a);
    let y = component_list(b);
    same_words(&x, &y)
}

/// Executable form of [`inside`].
fn join_path(dir: &str, name: &str) -> (r: String)
    ensures
        r@ == inside(dir@, name@),
{
    let v = text::chars_of(dir);
    if v.len() == 0 {
        text::copy_text(name)
    } else if v[v.len() - 1] == '/' {
        let mut s = text::copy_text(dir);
        text::append(&mut s, name);
        s
    } else {
        text::concat3(dir, "/", name)
    }
}

/// Where the search stands.
#[derive(Debug, Clone, Copy, PartialEq, Eq)]
pub enum Phase {
    /// A directory of ours has to be created first.
    Prepare(usize),
    /// The directory and the number of the socket to try next.
    Bind(usize, u32),
    /// Nothing is left to try.
    Exhausted,
}

/// The search for a place to bind.
#[derive(Debug)]
pub struct Binder {
    dirs: Vec<String>,
    fallback: String,
    phase: Phase,
    last_err: Option<String>,
}

/// What a [`Binder`] holds.
#[verifier::ext_equal]
pub struct BinderView {
    pub dirs: Seq<Seq<char>>,
    pub fallback: Seq<char>,
    pub phase: Phase,
    pub last_err: Option<Seq<char>>,
}

/// The next thing to do.
#[derive(Debug, PartialEq, Eq)]
pub enum BindAction {
    /// Create this directory, readable by its owner alone.
    Create(String),
    /// Bind a socket of this name in this directory.
    Bind { dir: String, name: String, path: String },
    /// Give up with this message.
    Fail(String),
}

/// How it went.
#[derive(Debug, PartialEq, Eq)]
pub enum BindOutcome {
    Created,
    CreateFailed(String),
    /// Another compositor has that name.
    AlreadyInUse,
    BindFailed(String),
}

/// The name of a socket.
pub open spec fn socket_name(n: u32) -> Seq<char> {
    "wayland-"@ + scan::decimal(n as nat)
}

/// The private directory of a user under the directory for temporary files.
pub open spec fn private_dir(temp: Seq<char>, uid: u32) -> Seq<char> {
    inside(temp, "focuswm-"@ + scan::decimal(uid as nat))
}

impl View for Binder {
    type V = BinderView;

    closed spec fn view(&self) -> BinderView {
        BinderView {
            dirs: text::views(self.dirs@),
            fallback: self.fallback@,
            phase: self.phase,
            last_err: task::opt_view(self.last_err),
        }
    }
}

impl BinderView {
    /// The directories to try.
    pub open spec fn candidates(runtime_dir: Option<Seq<char>>, fallback: Seq<char>) -> Seq<
        Seq<char>,
    > {
        match runtime_dir {
            Some(dir) => if is_absolute(dir) {
                seq![dir, fallback]
            } else {
                seq![fallback]
            },
            None => seq![fallback],
        }
    }

    /// Where the search in the directory with the index `i` begins.
    pub open spec fn begin(self, i: int) -> Phase {
        if i >= self.dirs.len() {
            Phase::Exhausted
        } else if same_path(self.dirs[i], self.fallback) {
            Phase::Prepare(i as usize)
        } else {
            Phase::Bind(i as usize, 1)
        }
    }

    /// A search that has not begun.
    pub open spec fn fresh(runtime_dir: Option<Seq<char>>, temp: Seq<char>, uid: u32) -> BinderView {
        let fallback = private_dir(temp, uid);
        let start = BinderView {
            dirs: BinderView::candidates(runtime_dir, fallback),
            fallback,
            phase: Phase::Exhausted,
            last_err: None,
        };
        BinderView { phase: start.begin(0), ..start }
    }

    /// Whether the phase names a directory and a number that exist.
    pub open spec fn wf(self) -> bool {
        &&& self.dirs.len() < usize::MAX
        &&& match self.phase {
            Phase::Prepare(i) => i < self.dirs.len(),
            Phase::Bind(i, n) => i < self.dirs.len() && 1 <= n <= LAST_NUMBER,
            Phase::Exhausted => true,
        }
    }

    /// Whether an outcome answers what was to be done.
    pub open spec fn answers(self, outcome: BindOutcome) -> bool {
        match self.phase {
            Phase::Prepare(_) => outcome is Created || outcome is CreateFailed,
            Phase::Bind(..) => outcome is AlreadyInUse || outcome is BindFailed,
            Phase::Exhausted => false,
        }
    }

    /// The search after an outcome: a name in use leads to the next one, and any
    /// error to the next directory.
    pub open spec fn after(self, outcome: BindOutcome) -> BinderView {
        match (self.phase, outcome) {
            (Phase::Prepare(i), BindOutcome::Created) => BinderView {
                phase: Phase::Bind(i, 1),
                ..self
            },
            (Phase::Prepare(i), BindOutcome::CreateFailed(e)) => BinderView {
                phase: self.begin(i + 1),
                last_err: Some("create "@ + self.dirs[i as int] + ": "@ + e@),
                ..self
            },
            (Phase::Bind(i, n), BindOutcome::AlreadyInUse) => BinderView {
                phase: if n < LAST_NUMBER {
                    Phase::Bind(i, (n + 1) as u32)
                } else {
                    self.begin(i + 1)
                },
                ..self
            },
            (Phase::Bind(i, _), BindOutcome::BindFailed(e)) => BinderView {
                phase: self.begin(i + 1),
                last_err: Some(self.dirs[i as int] + ": "@ + e@),
                ..self
            },
            _ => self,
        }
    }

    /// The message when nothing could be bound.
    pub open spec fn failure(self) -> Seq<char> {
        "no writable runtime directory for the wayland socket ("@ + match self.last_err {
            Some(e) => e,
            None => "unknown"@,
        } + ")"@
    }

    /// How many steps the search can still take.
    pub open spec fn budget(self) -> int {
        match self.phase {
            Phase::Prepare(i) => (self.dirs.len() - i) * 34,
            Phase::Bind(i, n) => (self.dirs.len() - i) * 34 - n,
            Phase::Exhausted => 0,
        }
    }
}

impl Binder {
    /// A search that starts with the session's runtime directory, where that is
    /// an absolute path, and falls back to a private directory.
    pub fn new(runtime_dir: Option<String>, temp_dir: &str, uid: u32) -> (r: Self)
        ensures
            r@ == BinderView::fresh(task::opt_view(runtime_dir), temp_dir@, uid),
            r@.wf(),
    {
        let number = scan::decimal_chars(uid as u64);
        let digits = text::text_of(&number);
        let mut name = text::copy_text("focuswm-");
        text::append(&mut name, &digits);
        let fallback = join_path(temp_dir, &name);
        let mut dirs: Vec<String> = Vec::new();
        if let Some(dir) = runtime_dir {
            if absolute(&dir) {
                dirs.push(dir);
            }
        }
        dirs.push(fallback.clone());
        let mut b = Binder { dirs, fallback, phase: Phase::Exhausted, last_err: None };
        assert(b@.dirs =~= BinderView::candidates(task::opt_view(runtime_dir), fallback@));
        b.phase = b.begin(0);
        b
    }

    /// Executable form of [`BinderView::begin`].
    fn begin(&self, i: usize) -> (r: Phase)
        ensures
            r == self@.begin(i as int),
    {
        if i >= self.dirs.len() {
            Phase::Exhausted
        } else {
            assert(self@.dirs[i as int] == self.dirs@[i as int]@);
            if paths_equal(&self.dirs[i], &self.fallback) {
                Phase::Prepare(i)
            } else {
                Phase::Bind(i, 1)
            }
        }
    }

    /// What to do next.
    pub fn action(&self) -> (r: BindAction)
        requires
            self@.wf(),
        ensures
            match (self@.phase, r) {
                (Phase::Prepare(i), BindAction::Create(dir)) => dir@ == self@.dirs[i as int],
                (Phase::Bind(i, n), BindAction::Bind { dir, name, path }) => dir@
                    == self@.dirs[i as int] && name@ == socket_name(n) && path@ == inside(
                    dir@,
                    name@,
                ),
                (Phase::Exhausted, BindAction::Fail(message)) => message@ == self@.failure(),
                _ => false,
            },
    {
        match self.phase {
            Phase::Prepare(i) => {
                assert(self@.dirs[i as int] == self.dirs@[i as int]@);
                BindAction::Create(self.dirs[i].clone())
            },
            Phase::Bind(i, n) => {
                assert(self@.dirs[i as int] == self.dirs@[i as int]@);
                let number = scan::decimal_chars(n as u64);
                let digits = text::text_of(&number);
                let mut name = text::copy_text("wayland-");
                text::append(&mut name, &digits);
                let path = join_path(&self.dirs[i], &name);
                BindAction::Bind { dir: self.dirs[i].clone(), name, path }
            },
            Phase::Exhausted => {
                let cause = match &self.last_err {
                    Some(e) => e.clone(),
                    None => text::copy_text("unknown"),
                };
                BindAction::Fail(
                    text::concat3(
                        "no writable runtime directory for the wayland socket (",
                        &cause,
                        ")",
                    ),
                )
            },
        }
    }

    /// Takes in how the last action went, where it did not bind a socket.
    pub fn report(&mut self, outcome: BindOutcome)
        requires
            old(self)@.wf(),
            old(self)@.answers(outcome),
        ensures
            final(self)@ == old(self)@.after(outcome),
            final(self)@.wf(),
    {
        let ghost before = self@;
        match (self.phase, outcome) {
            (Phase::Prepare(i), BindOutcome::Created) => {
                self.phase = Phase::Bind(i, 1);
            },
            (Phase::Prepare(i), BindOutcome::CreateFailed(e)) => {
                assert(self@.dirs[i as int] == self.dirs@[i as int]@);
                let mut message = text::concat3("create ", &self.dirs[i], ": ");
                text::append(&mut message, &e);
                self.last_err = Some(message);
                self.phase = self.begin(i + 1);
            },
            (Phase::Bind(i, n), BindOutcome::AlreadyInUse) => {
                if n < LAST_NUMBER {
                    self.phase = Phase::Bind(i, n + 1);
                } else {
                    self.phase = self.begin(i + 1);
                }
            },
            (Phase::Bind(i, _), BindOutcome::BindFailed(e)) => {
                assert(self@.dirs[i as int] == self.dirs@[i as int]@);
                self.last_err = Some(text::concat3(&self.dirs[i], ": ", &e));
                self.phase = self.begin(i + 1);
            },
            _ => {},
        }
        assert(self@ =~= before.after(outcome));
    }
}

// ---------------------------------------------------------------------------
// Laws
// ---------------------------------------------------------------------------

/// The search ends: every outcome leaves fewer steps to take.
pub proof fn law_search_ends(b: BinderView, outcome: BindOutcome)
    requires
        b.wf(),
        b.answers(outcome),
    ensures
        0 <= b.after(outcome).budget() < b.budget(),
        b.after(outcome).wf(),
{
}

/// The last directory of every search is the private one, and it is created
/// before anything is bound in it.
pub proof fn law_private_directory_is_last(runtime_dir: Option<Seq<char>>, temp: Seq<char>, uid: u32)
    ensures
        ({
            let b = BinderView::fresh(runtime_dir, temp, uid);
            &&& b.dirs.last() == private_dir(temp, uid)
            &&& b.begin(b.dirs.len() - 1) == Phase::Prepare((b.dirs.len() - 1) as usize)
        }),
{
}

proof fn lemma_components_are_filter(parts: Seq<Seq<char>>)
    ensures
        components(parts) == parts.filter(|p: Seq<char>| p.len() > 0 && p != "."@),
    decreases parts.len(),
{
    reveal(Seq::filter);
    if parts.len() > 0 {
        lemma_components_are_filter(parts.drop_last());
    }
}

/// Two absolute paths are the same when they differ in empty and "." components
/// alone; other paths are the same when they are equal.
pub proof fn law_paths_are_compared_by_components(a: Seq<char>, b: Seq<char>)
    ensures
        same_path(a, a),
        same_path(a, b) == same_path(b, a),
        a.len() > 0 && b.len() > 0 && a[0] == '/' && b[0] == '/' ==> (same_path(a, b)
            <==> scan::pieces(a, '/').filter(|p: Seq<char>| p.len() > 0 && p != "."@)
            == scan::pieces(b, '/').filter(|p: Seq<char>| p.len() > 0 && p != "."@)),
        a.len() == 0 || b.len() == 0 || a[0] != '/' || b[0] != '/' ==> (same_path(a, b) <==> a
            == b),
{
    lemma_components_are_filter(scan::pieces(a, '/'));
    lemma_components_are_filter(scan::pieces(b, '/'));
}

/// A name is put into a directory with one slash between them.
pub proof fn law_names_are_joined_by_one_slash(dir: Seq<char>, name: Seq<char>)
    requires
        dir.len() == 0 || dir.last() != '/',
    ensures
        dir.len() > 0 ==> inside(dir, name) == dir + seq!['/'] + name,
        dir.len() == 0 ==> inside(dir, name) == name,
        inside(dir.push('/'), name) == dir + seq!['/'] + name,
{
    reveal_strlit("/");
    assert("/"@ =~= seq!['/']);
    assert(dir.push('/') + name =~= dir + seq!['/'] + name);
}

/// The private directory is named after the user, and the sockets are numbered.
pub proof fn law_socket_names(temp: Seq<char>, uid: u32, n: u32)
    requires
        temp.len() > 0,
        temp.last() != '/',
    ensures
        private_dir(temp, uid) == temp + "/focuswm-"@ + scan::decimal(uid as nat),
        socket_name(n) == "wayland-"@ + scan::decimal(n as nat),
{
    reveal_strlit("/");
    reveal_strlit("focuswm-");
    reveal_strlit("/focuswm-");
    assert("/focuswm-"@ =~= "/"@ + "focuswm-"@);
    assert(private_dir(temp, uid) =~= temp + "/focuswm-"@ + scan::decimal(uid as nat));
}

/// An absolute runtime directory is tried first and the private one last; without
/// one the private directory is the only one. A private directory is created
/// before anything is bound in it, another one is used as it is.
pub proof fn law_directories_are_tried_in_order(
    runtime_dir: Option<Seq<char>>,
    temp: Seq<char>,
    uid: u32,
)
    ensures
        ({
            let b = BinderView::fresh(runtime_dir, temp, uid);
            let own = private_dir(temp, uid);
            let usable = runtime_dir is Some && runtime_dir->0.len() > 0 && runtime_dir->0[0]
                == '/';
            &&& b.fallback == own
            &&& b.last_err is None
            &&& usable ==> b.dirs == seq![runtime_dir->0, own]
            &&& !usable ==> b.dirs == seq![own] && b.phase == Phase::Prepare(0)
            &&& usable && !same_path(runtime_dir->0, own) ==> b.phase == Phase::Bind(0, 1)
            &&& usable && same_path(runtime_dir->0, own) ==> b.phase == Phase::Prepare(0)
        }),
{
}

/// In each directory the numbers 1 to 32 are tried in order while they are in use;
/// any other failure goes on to the next directory and is remembered.
pub proof fn law_numbers_are_tried_in_order(b: BinderView, i: usize, n: u32, e: String)
    requires
        b.wf(),
        b.phase == Phase::Bind(i, n),
    ensures
        n < 32 ==> b.after(BindOutcome::AlreadyInUse).phase == Phase::Bind(i, (n + 1) as u32),
        n == 32 ==> b.after(BindOutcome::AlreadyInUse).phase == b.begin(i + 1),
        b.after(BindOutcome::AlreadyInUse).last_err == b.last_err,
        b.after(BindOutcome::BindFailed(e)).phase == b.begin(i + 1),
        b.after(BindOutcome::BindFailed(e)).last_err == Some(
            b.dirs[i as int] + seq![':', ' '] + e@,
        ),
        b.after(BindOutcome::BindFailed(e)).dirs == b.dirs,
        b.begin(b.dirs.len() as int) == Phase::Exhausted,
{
    reveal_strlit(": ");
    assert(": "@ =~= seq![':', ' ']);
}

/// A directory that was created is bound in from number 1 on; one that could not
/// be is passed over and remembered.
pub proof fn law_created_directories_are_used(b: BinderView, i: usize, e: String)
    requires
        b.wf(),
        b.phase == Phase::Prepare(i),
    ensures
        b.after(BindOutcome::Created).phase == Phase::Bind(i, 1),
        b.after(BindOutcome::Created).last_err == b.last_err,
        b.after(BindOutcome::CreateFailed(e)).phase == b.begin(i + 1),
        b.after(BindOutcome::CreateFailed(e)).last_err == Some(
            "create "@ + b.dirs[i as int] + seq![':', ' '] + e@,
        ),
{
    reveal_strlit(": ");
    assert(": "@ =~= seq![':', ' ']);
}

/// What finally failed is said with the last reason.
pub proof fn law_failure_gives_the_last_reason(b: BinderView)
    ensures
        ({
            let lead = "no writable runtime directory for the wayland socket ("@;
            let n = lead.len() as int;
            &&& b.failure().take(n) == lead
            &&& b.failure().last() == ')'
            &&& b.last_err matches Some(e) ==> b.failure().subrange(n, n + e.len()) == e
                && b.failure().len() == n + e.len() + 1
            &&& b.last_err is None ==> b.failure().skip(n) == "unknown"@.push(')')
        }),
{
    reveal_strlit(")");
    let lead = "no writable runtime directory for the wayland socket ("@;
    let n = lead.len() as int;
    assert(b.failure().take(n) =~= lead);
    match b.last_err {
        Some(e) => {
            assert(b.failure().subrange(n, n + e.len()) =~= e);
        },
        None => {
            assert(b.failure().skip(n) =~= "unknown"@.push(')'));
        },
    }
}

/// Work in a directory begins with creating it where it is the private one, and
/// with the first number otherwise; behind the last there is nothing left.
pub proof fn law_directories_begin(b: BinderView, i: int)
    requires
        0 <= i <= usize::MAX,
    ensures
        i >= b.dirs.len() ==> b.begin(i) == Phase::Exhausted,
        i < b.dirs.len() && same_path(b.dirs[i], b.fallback) ==> b.begin(i) == Phase::Prepare(
            i as usize,
        ),
        i < b.dirs.len() && !same_path(b.dirs[i], b.fallback) ==> b.begin(i) == Phase::Bind(
            i as usize,
            1,
        ),
{
}

} // verus!
