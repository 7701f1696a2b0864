//! GitHub integration: repository slugs, search results for the wizard, and
//! activity on linked issues and pull requests.

use vstd::prelude::*;

use crate::model::{is_blank, TaskId};
use crate::scan;
use crate::task;
use crate::task::{GithubLink, LinkView, TaskView};
use crate::tasklist;
use crate::tasklist::{ListView, TaskList};
use crate::text;

verus! {

// ---------------------------------------------------------------------------
// Slugs
// ---------------------------------------------------------------------------

/// The part of a trimmed remote that names the repository, where it is on
/// GitHub: what follows the host, or all of a bare `owner/repo`.
pub open spec fn repo_path(s: Seq<char>) -> Option<Seq<char>> {
    match scan::after_prefix(s, "https://github.com/"@) {
        Some(r) => Some(r),
        None => match scan::after_prefix(s, "http://github.com/"@) {
            Some(r) => Some(r),
            None => match scan::after_prefix(s, "git@github.com:"@) {
                Some(r) => Some(r),
                None => match scan::after_prefix(s, "ssh://git@github.com/"@) {
                    Some(r) => Some(r),
                    None => if !scan::has_text(s, "://"@) && !scan::has_text(s, "@"@) {
                        Some(s)
                    } else {
                        None
                    },
                },
            },
        },
    }
}

/// The first two components of a path, where neither is empty.
pub open spec fn owner_and_repo(path: Seq<char>) -> Option<(Seq<char>, Seq<char>)> {
    let rest = scan::without_suffix(scan::without_suffix(path, "/"@), ".git"@);
    let parts = scan::pieces(rest, '/');
    if parts.len() >= 2 && parts[0].len() > 0 && parts[1].len() > 0 {
        Some((parts[0], parts[1]))
    } else {
        None
    }
}

/// The owner and the repository that `s` names on GitHub.
pub open spec fn slug_of(s: Seq<char>) -> Option<(Seq<char>, Seq<char>)> {
    match repo_path(text::trimmed(s)) {
        Some(path) => owner_and_repo(path),
        None => None,
    }
}

/// [`repo_path`] on characters.
fn path_chars(v: Vec<char>) -> (r: Option<Vec<char>>)
    ensures
        match r {
            Some(w) => repo_path(v@) == Some(w@),
            None => repo_path(v@) is None,
        },
{
    if let Some(r) = scan::strip_prefix(&v, "https://github.com/") {
        return Some(r);
    }
    if let Some(r) = scan::strip_prefix(&v, "http://github.com/") {
        return Some(r);
    }
    if let Some(r) = scan::strip_prefix(&v, "git@github.com:") {
        return Some(r);
    }
    if let Some(r) = scan::strip_prefix(&v, "ssh://git@github.com/") {
        return Some(r);
    }
    let s = text::text_of(&v);
    if !scan::contains_text(&s, "://") && !scan::contains_text(&s, "@") {
        Some(v)
    } else {
        None
    }
}

/// Parse a GitHub `owner/repo` slug from a remote URL or a bare `owner/repo`.
/// Handles `https://github.com/owner/repo(.git)`, `git@github.com:owner/repo.git`
/// and `owner/repo`. Returns `None` for anything that isn't GitHub-shaped.
pub fn parse_slug(s: &str) -> (r: Option<(String, String)>)
    ensures
        match r {
            Some((owner, repo)) => slug_of(s@) == Some((owner@, repo@)),
            None => slug_of(s@) is None,
        },
{
    let all = text::chars_of(s);
    let v = text::trim_chars(&all);
    match path_chars(v) {
        None => None,
        Some(path) => {
            let a = scan::strip_suffix(&path, "/");
            let rest = scan::strip_suffix(&a, ".git");
            let parts = scan::split_at_char(&rest, '/');
            proof {
                let p = scan::pieces(rest@, '/');
                assert(scan::rows(parts@).len() == parts@.len());
                assert(forall|i: int|
                    0 <= i < parts@.len() ==> p[i] == (#[trigger] parts@[i])@);
            }
            if parts.len() >= 2 && parts[0].len() > 0 && parts[1].len() > 0 {
                Some((text::text_of(&parts[0]), text::text_of(&parts[1])))
            } else {
                None
            }
        },
    }
}

// ---------------------------------------------------------------------------
// Requests and results
// ---------------------------------------------------------------------------

/// A search result (an issue or pull request).
#[derive(Debug, PartialEq, Eq)]
pub struct IssueHit {
    pub slug: String,
    pub number: u64,
    pub title: String,
    pub url: String,
    pub updated_at: i64,
}

/// Work submitted to the GitHub thread from the UI.
#[derive(Debug, PartialEq, Eq)]
pub enum Request {
    /// Search issues/PRs matching a free-text query (for the wizard).
    Search { query: String },
    /// Check a linked issue/PR for its latest `updated_at`.
    Poll { task_id: u64, slug: String, number: u64 },
}

/// Results delivered back to the UI thread.
#[derive(Debug, PartialEq, Eq)]
pub enum GhEvent {
    SearchResults(Vec<IssueHit>),
    /// The linked item's current `updated_at` (epoch seconds) and web URL.
    Activity { task_id: u64, updated_at: i64, url: String, title: String },
    Error(String),
}

/// What an [`IssueHit`] holds.
#[verifier::ext_equal]
pub struct HitView {
    pub slug: Seq<char>,
    pub number: u64,
    pub title: Seq<char>,
    pub url: Seq<char>,
    pub updated_at: i64,
}

impl View for IssueHit {
    type V = HitView;

    open spec fn view(&self) -> HitView {
        HitView {
            slug: self.slug@,
            number: self.number,
            title: self.title@,
            url: self.url@,
            updated_at: self.updated_at,
        }
    }
}

/// An issue or pull request as the service reports it.
#[derive(Debug, PartialEq, Eq)]
pub struct Issue {
    pub html_url: String,
    pub number: u64,
    pub title: String,
    /// Epoch seconds.
    pub updated_at: i64,
}

/// `owner/repo`.
pub open spec fn slug_text(owner: Seq<char>, repo: Seq<char>) -> Seq<char> {
    owner + "/"@ + repo
}

/// The hit for an issue: none where its address is not on GitHub.
pub open spec fn hit_of(issue: Issue) -> Option<HitView> {
    match slug_of(issue.html_url@) {
        Some((owner, repo)) => Some(
            HitView {
                slug: slug_text(owner, repo),
                number: issue.number,
                title: issue.title@,
                url: issue.html_url@,
                updated_at: issue.updated_at,
            },
        ),
        None => None,
    }
}

/// Convert an issue or pull request into the lightweight [`IssueHit`].
pub fn hit_from_issue(issue: Issue) -> (r: Option<IssueHit>)
    ensures
        match r {
            Some(hit) => hit_of(issue) == Some(hit@),
            None => hit_of(issue) is None,
        },
{
    match parse_slug(&issue.html_url) {
        Some((owner, repo)) => Some(
            IssueHit {
                slug: text::concat3(&owner, "/", &repo),
                number: issue.number,
                title: issue.title,
                url: issue.html_url,
                updated_at: issue.updated_at,
            },
        ),
        None => None,
    }
}

/// The most search results that are shown.
pub const MAX_HITS: usize = 10;

/// The hits among `issues`, in order.
pub open spec fn hits_of(issues: Seq<Issue>) -> Seq<HitView>
    decreases issues.len(),
{
    if issues.len() == 0 {
        Seq::empty()
    } else {
        let before = hits_of(issues.drop_last());
        match hit_of(issues.last()) {
            Some(h) => before.push(h),
            None => before,
        }
    }
}

/// The first [`MAX_HITS`] of them.
pub open spec fn shown_hits(issues: Seq<Issue>) -> Seq<HitView> {
    let all = hits_of(issues);
    if all.len() <= MAX_HITS {
        all
    } else {
        all.take(MAX_HITS as int)
    }
}

/// What the hits hold.
pub open spec fn hit_views(hits: Seq<IssueHit>) -> Seq<HitView> {
    hits.map_values(|h: IssueHit| h@)
}

/// More issues only add hits at the end.
proof fn lemma_hits_grow(issues: Seq<Issue>, k: int)
    requires
        0 <= k <= issues.len(),
    ensures
        hits_of(issues.take(k)).len() <= hits_of(issues).len(),
        hits_of(issues).take(hits_of(issues.take(k)).len() as int) == hits_of(issues.take(k)),
    decreases issues.len(),
{
    if k == issues.len() {
        assert(issues.take(k) =~= issues);
        assert(hits_of(issues).take(hits_of(issues).len() as int) =~= hits_of(issues));
    } else {
        lemma_hits_grow(issues.drop_last(), k);
        assert(issues.drop_last().take(k) =~= issues.take(k));
        let n = hits_of(issues.take(k)).len() as int;
        assert(hits_of(issues).take(n) =~= hits_of(issues.drop_last()).take(n));
    }
}

/// The results of a search: the issues that are on GitHub, capped to a handful.
pub fn search_hits(issues: Vec<Issue>) -> (r: Vec<IssueHit>)
    ensures
        hit_views(r@) == shown_hits(issues@),
{
    let ghost all = issues@;
    let mut hits: Vec<IssueHit> = Vec::new();
    let mut rest = issues;
    let mut left: Vec<Issue> = Vec::new();
    // Reverse, so that the issues can be taken from the end.
    while rest.len() > 0
        invariant
            rest@ == all.take(rest@.len() as int),
            rest@.len() + left@.len() == all.len(),
            forall|i: int| 0 <= i < left@.len() ==> left@[i] == all[all.len() - 1 - i],
        decreases rest@.len(),
    {
        if let Some(issue) = rest.pop() {
            left.push(issue);
        }
        assert(rest@ =~= all.take(rest@.len() as int));
    }
    assert(hits_of(all.take(0)) =~= Seq::empty());
    assert(hit_views(hits@) =~= hits_of(all.take(0)));
    while left.len() > 0 && hits.len() < MAX_HITS
        invariant
            left@.len() <= all.len(),
            hits@.len() <= MAX_HITS,
            hit_views(hits@) == hits_of(all.take(all.len() - left@.len())),
            forall|i: int| 0 <= i < left@.len() ==> left@[i] == all[all.len() - 1 - i],
        decreases left@.len(),
    {
        let ghost k = all.len() - left@.len();
        if let Some(issue) = left.pop() {
            assert(issue == all[k]);
            assert(all.take(k + 1).drop_last() =~= all.take(k));
            assert(all.take(k + 1).last() == all[k]);
            let ghost before = hits@;
            if let Some(hit) = hit_from_issue(issue) {
                hits.push(hit);
                assert(hit_views(hits@) =~= hit_views(before).push(hit@));
            }
        }
    }
    proof {
        let k = all.len() - left@.len();
        lemma_hits_grow(all, k);
        assert(hit_views(hits@).len() == hits@.len());
        if left@.len() == 0 {
            assert(all.take(k) =~= all);
        }
    }
    hits
}

/// The token to use: the one configured in the settings when non-empty, else
/// that of the environment.
pub open spec fn token_of(configured: Seq<char>, env: Option<Seq<char>>) -> Option<Seq<char>> {
    if text::trimmed(configured).len() > 0 {
        Some(text::trimmed(configured))
    } else {
        match env {
            Some(t) => if text::trimmed(t).len() > 0 {
                Some(t)
            } else {
                None
            },
            None => None,
        }
    }
}

/// The token the subsystem would use: the one configured in the settings when
/// non-empty, else `env`, the value of the `GITHUB_TOKEN` variable.
pub fn resolve_token(settings_token: &str, env: Option<String>) -> (r: Option<String>)
    ensures
        task::opt_view(r) == token_of(settings_token@, task::opt_view(env)),
{
    let configured = text::trim(settings_token);
    if !is_blank(&configured) {
        return Some(configured);
    }
    match env {
        Some(t) => {
            let inner = text::trim(&t);
            if is_blank(&inner) {
                None
            } else {
                Some(t)
            }
        },
        None => None,
    }
}

/// The request for a search: none for a blank query.
pub fn search_request(query: &str) -> (r: Option<Request>)
    ensures
        match r {
            Some(Request::Search { query: q }) => text::trimmed(query@).len() > 0 && q@
                == text::trimmed(query@),
            Some(_) => false,
            None => text::trimmed(query@).len() == 0,
        },
{
    let q = text::trim(query);
    if is_blank(&q) {
        None
    } else {
        Some(Request::Search { query: q })
    }
}

/// What a poll asks for.
#[verifier::ext_equal]
pub struct PollView {
    pub task_id: u64,
    pub slug: Seq<char>,
    pub number: u64,
}

/// The polls for the linked tasks, in sidebar order.
pub open spec fn polls_of(tasks: Seq<TaskView>) -> Seq<PollView>
    decreases tasks.len(),
{
    if tasks.len() == 0 {
        Seq::empty()
    } else {
        let before = polls_of(tasks.drop_last());
        let t = tasks.last();
        match t.github {
            Some(l) => before.push(PollView { task_id: t.id.0, slug: l.slug, number: l.number }),
            None => before,
        }
    }
}

/// Whether `r` is the request for the poll `p`.
pub open spec fn is_poll(r: Request, p: PollView) -> bool {
    match r {
        Request::Poll { task_id, slug, number } => task_id == p.task_id && slug@ == p.slug
            && number == p.number,
        Request::Search { .. } => false,
    }
}

/// The requests that poll every linked issue or pull request.
pub fn poll_requests(list: &TaskList) -> (r: Vec<Request>)
    ensures
        r@.len() == polls_of(list@.tasks).len(),
        forall|i: int| 0 <= i < r@.len() ==> is_poll(#[trigger] r@[i], polls_of(list@.tasks)[i]),
{
    let tasks = list.tasks();
    let ghost all = list@.tasks;
    let mut out: Vec<Request> = Vec::new();
    let mut i: usize = 0;
    assert(polls_of(all.take(0)) =~= Seq::empty());
    while i < tasks.len()
        invariant
            i <= tasks@.len(),
            all == tasklist::task_views(tasks@),
            out@.len() == polls_of(all.take(i as int)).len(),
            forall|j: int|
                0 <= j < out@.len() ==> is_poll(
                    #[trigger] out@[j],
                    polls_of(all.take(i as int))[j],
                ),
        decreases tasks@.len() - i,
    {
        let t = &tasks[i];
        proof {
            assert(all[i as int] == t@);
            assert(all.take(i as int + 1).drop_last() =~= all.take(i as int));
        }
        if let Some(link) = &t.github {
            out.push(
                Request::Poll {
                    task_id: t.id.0,
                    slug: link.slug.clone(),
                    number: link.number,
                },
            );
        }
        i += 1;
    }
    assert(all.take(i as int) =~= all);
    out
}

// ---------------------------------------------------------------------------
// Activity
// ---------------------------------------------------------------------------

/// Whether an `updated_at` is new activity on a link: newer than what was last
/// seen. The first observation only records a baseline.
pub open spec fn is_news(link: LinkView, updated_at: i64) -> bool {
    match link.last_seen {
        Some(prev) => updated_at > prev,
        None => false,
    }
}

/// A link after a poll saw `updated_at`.
pub open spec fn seen(link: LinkView, updated_at: i64, url: Seq<char>, title: Seq<char>) -> LinkView {
    LinkView {
        url,
        title,
        last_seen: match link.last_seen {
            Some(prev) => if updated_at > prev {
                Some(updated_at)
            } else {
                Some(prev)
            },
            None => Some(updated_at),
        },
        ..link
    }
}

/// The list after a poll of a task's link: the link is brought up to date, and
/// new activity raises the task's dot, except on the active task.
pub open spec fn with_activity(
    list: ListView,
    id: TaskId,
    updated_at: i64,
    url: Seq<char>,
    title: Seq<char>,
) -> ListView {
    if !list.has_task(id) {
        list
    } else {
        let k = tasklist::task_index(list.tasks, id);
        match list.tasks[k].github {
            None => list,
            Some(link) => {
                let t = TaskView { github: Some(seen(link, updated_at, url, title)), ..list.tasks[k] };
                let after = list.with_task(k, t);
                if is_news(link, updated_at) && list.active != Some(id) {
                    after.marked(id, true)
                } else {
                    after
                }
            },
        }
    }
}

/// The link of a task, where it has one.
pub open spec fn link_of(list: ListView, id: TaskId) -> Option<LinkView> {
    if list.has_task(id) {
        list.tasks[tasklist::task_index(list.tasks, id)].github
    } else {
        None
    }
}

/// The headline of the toast for new activity.
pub open spec fn headline(link: LinkView) -> Seq<char> {
    "New activity on "@ + link.slug + "#"@ + scan::decimal(link.number as nat)
}

/// Brings a link up to date. Returns whether there was new activity.
fn refresh_link(link: &mut GithubLink, updated_at: i64, url: &str, title: &str) -> (r: bool)
    ensures
        final(link)@ == seen(old(link)@, updated_at, url@, title@),
        r == is_news(old(link)@, updated_at),
{
    link.url = text::copy_text(url);
    link.title = text::copy_text(title);
    match link.last_seen {
        None => {
            link.last_seen = Some(updated_at);
            false
        },
        Some(prev) => if updated_at > prev {
            link.last_seen = Some(updated_at);
            true
        } else {
            false
        },
    }
}

/// A poll saw the state of a task's linked issue or pull request. New activity
/// raises the task's notification dot; its headline is returned to be shown as
/// a toast.
pub fn record_activity(
    list: &mut TaskList,
    id: TaskId,
    updated_at: i64,
    url: &str,
    title: &str,
) -> (r: Option<String>)
    ensures
        final(list)@ == with_activity(old(list)@, id, updated_at, url@, title@),
        match r {
            Some(h) => {
                let link = link_of(old(list)@, id);
                link is Some && is_news(link->0, updated_at) && h@ == headline(link->0)
            },
            None => match link_of(old(list)@, id) {
                Some(link) => !is_news(link, updated_at),
                None => true,
            },
        },
{
    let ghost before = list@;
    let mut alert: Option<String> = None;
    if let Some(t) = list.get_mut(id) {
        if let Some(link) = &mut t.github {
            let news: bool = refresh_link(link, updated_at, url, title);
            if news {
                let mut h = text::concat3("New activity on ", &link.slug, "#");
                let number = scan::decimal_chars(link.number);
                let digits = text::text_of(&number);
                text::append(&mut h, &digits);
                alert = Some(h);
            }
        }
    }
    proof {
        tasklist::lemma_task_index(before.tasks, id);
        if before.has_task(id) && link_of(before, id) is None {
            let k = tasklist::task_index(before.tasks, id);
            assert(before.tasks.update(k, before.tasks[k]) =~= before.tasks);
            assert(list@ =~= before);
        }
    }
    if alert.is_some() {
        list.notify(id);
    }
    alert
}

// ---------------------------------------------------------------------------
// Picking an issue in the wizard
// ---------------------------------------------------------------------------

/// One row of the wizard's results.
#[derive(Debug, PartialEq, Eq)]
pub struct IssueResult {
    pub slug: String,
    pub number: i32,
    pub title: String,
    pub url: String,
    pub selected: bool,
}

/// Whether the link names the hit.
pub open spec fn links_to(link: Option<GithubLink>, hit: HitView) -> bool {
    match link {
        Some(l) => l.slug@ == hit.slug && l.number == hit.number,
        None => false,
    }
}

/// Whether `row` shows `hit`, with the mark for the linked one. The row holds
/// the low half of the number.
pub open spec fn shows_hit(row: IssueResult, hit: HitView, link: Option<GithubLink>) -> bool {
    &&& row.slug@ == hit.slug
    &&& row.number == hit.number as i32
    &&& row.title@ == hit.title
    &&& row.url@ == hit.url
    &&& row.selected == links_to(link, hit)
}

/// The rows for search results; the one that is linked already is marked.
pub fn result_rows(hits: &Vec<IssueHit>, link: &Option<GithubLink>) -> (r: Vec<IssueResult>)
    ensures
        r@.len() == hits@.len(),
        forall|i: int| 0 <= i < r@.len() ==> shows_hit(#[trigger] r@[i], hits@[i]@, *link),
{
    let mut out: Vec<IssueResult> = Vec::new();
    let mut i: usize = 0;
    while i < hits.len()
        invariant
            i <= hits@.len(),
            out@.len() == i,
            forall|j: int| 0 <= j < i ==> shows_hit(#[trigger] out@[j], hits@[j]@, *link),
        decreases hits@.len() - i,
    {
        let h = &hits[i];
        let selected: bool = match link {
            Some(l) => text::same_text(&l.slug, &h.slug) && l.number == h.number,
            None => false,
        };
        out.push(
            IssueResult {
                slug: h.slug.clone(),
                number: #[verifier::truncate] (h.number as i32),
                title: h.title.clone(),
                url: h.url.clone(),
                selected,
            },
        );
        i += 1;
    }
    out
}

/// The link for a picked row; an empty slug clears the pick.
pub open spec fn picked(slug: Seq<char>, number: i32, title: Seq<char>, url: Seq<char>) -> Option<
    LinkView,
> {
    if slug.len() == 0 {
        None
    } else {
        Some(LinkView { slug, number: number as u64, title, url, last_seen: None })
    }
}

/// Whether `after` is `before` with only the picked row marked.
pub open spec fn marks_row(before: IssueResult, after: IssueResult, slug: Seq<char>, number: i32) -> bool {
    &&& after.slug == before.slug
    &&& after.number == before.number
    &&& after.title == before.title
    &&& after.url == before.url
    &&& after.selected == (before.number == number && before.slug@ == slug)
}

/// Select (or clear, with an empty slug) the issue to link to the task being
/// created, and reflect the selection in the results. Clearing drops the
/// results.
pub fn link_issue(
    rows: &mut Vec<IssueResult>,
    slug: &str,
    number: i32,
    title: &str,
    url: &str,
) -> (r: Option<GithubLink>)
    ensures
        match r {
            Some(l) => picked(slug@, number, title@, url@) == Some(l@),
            None => slug@.len() == 0,
        },
        slug@.len() == 0 ==> final(rows)@.len() == 0,
        slug@.len() > 0 ==> final(rows)@.len() == old(rows)@.len() && forall|i: int|
            0 <= i < old(rows)@.len() ==> marks_row(
                #[trigger] old(rows)@[i],
                final(rows)@[i],
                slug@,
                number,
            ),
{
    if is_blank(slug) {
        rows.clear();
        return None;
    }
    let ghost before = rows@;
    let mut i: usize = 0;
    while i < rows.len()
        invariant
            i <= rows@.len(),
            rows@.len() == before.len(),
            forall|j: int|
                0 <= j < i ==> marks_row(#[trigger] before[j], rows@[j], slug@, number),
            forall|j: int| i <= j < before.len() ==> #[trigger] rows@[j] == before[j],
        decreases rows@.len() - i,
    {
        let selected: bool = rows[i].number == number && text::same_text(&rows[i].slug, slug);
        rows[i].selected = selected;
        i += 1;
    }
    Some(
        GithubLink {
            slug: text::copy_text(slug),
            number: #[verifier::truncate] (number as u64),
            title: text::copy_text(title),
            url: text::copy_text(url),
            last_seen: None,
        },
    )
}

// ---------------------------------------------------------------------------
// Laws
// ---------------------------------------------------------------------------

/// A slug that a hit carries names the same repository when it is parsed again,
/// so what a search found can be polled. Left out are names with white space at
/// the outer ends, with an `@`, or with a repository that ends in `.git`: none
/// of these come back.
pub proof fn law_slug_round_trip(owner: Seq<char>, repo: Seq<char>)
    requires
        owner.len() > 0,
        repo.len() > 0,
        forall|i: int| 0 <= i < owner.len() ==> owner[i] != '/' && owner[i] != '@',
        forall|i: int| 0 <= i < repo.len() ==> repo[i] != '/' && repo[i] != '@',
        !text::is_space(owner[0]),
        !text::is_space(repo.last()),
        !scan::finishes_with(repo, ".git"@),
    ensures
        slug_of(slug_text(owner, repo)) == Some((owner, repo)),
{
    let s = slug_text(owner, repo);
    reveal_strlit("/");
    reveal_strlit("://");
    reveal_strlit("@");
    reveal_strlit(".git");
    reveal_strlit("https://github.com/");
    reveal_strlit("http://github.com/");
    reveal_strlit("git@github.com:");
    reveal_strlit("ssh://git@github.com/");
    let n = owner.len() as int;
    assert(s[n] == '/');
    assert(s.len() == n + 1 + repo.len());
    assert forall|i: int| 0 <= i < s.len() && i != n implies s[i] != '/' && s[i] != '@' by {
        if i > n {
            assert(s[i] == repo[i - n - 1]);
        } else {
            assert(s[i] == owner[i]);
        }
    }
    assert(s[0] == owner[0]);
    assert(s.last() == repo.last());
    assert(text::trimmed(s) == s);
    // None of the prefixes stands at the front: each holds two slashes or an `@`.
    if scan::begins_with(s, "https://github.com/"@) {
        let p = s.subrange(0, 19);
        assert(p[6] == '/' && p[7] == '/');
        assert(s[6] == '/' && s[7] == '/');
    }
    if scan::begins_with(s, "http://github.com/"@) {
        let p = s.subrange(0, 18);
        assert(p[5] == '/' && p[6] == '/');
        assert(s[5] == '/' && s[6] == '/');
    }
    if scan::begins_with(s, "git@github.com:"@) {
        let p = s.subrange(0, 15);
        assert(p[3] == '@');
        assert(s[3] == '@');
    }
    if scan::begins_with(s, "ssh://git@github.com/"@) {
        let p = s.subrange(0, 21);
        assert(p[9] == '@');
        assert(s[9] == '@');
    }
    assert forall|i: int| !scan::occurs_at(s, "://"@, i) by {
        if scan::occurs_at(s, "://"@, i) {
            let p = s.subrange(i, i + 3);
            assert(p[1] == '/' && p[2] == '/');
            assert(s[i + 1] == '/' && s[i + 2] == '/');
        }
    }
    assert forall|i: int| !scan::occurs_at(s, "@"@, i) by {
        if scan::occurs_at(s, "@"@, i) {
            let p = s.subrange(i, i + 1);
            assert(p[0] == '@');
            assert(s[i] == '@');
        }
    }
    assert(repo_path(s) == Some(s));
    // Neither suffix is there.
    if scan::finishes_with(s, "/"@) {
        let p = s.subrange(s.len() - 1, s.len() as int);
        assert(p[0] == '/');
        assert(s.last() == '/');
        assert(s[s.len() - 1] != '/');
    }
    if scan::finishes_with(s, ".git"@) {
        let p = s.subrange(s.len() - 4, s.len() as int);
        assert(p[0] == '.' && p[1] == 'g' && p[2] == 'i' && p[3] == 't');
        assert(s[s.len() - 4] == '.' && s[s.len() - 3] == 'g' && s[s.len() - 2] == 'i' && s[s.len()
            - 1] == 't');
        if repo.len() >= 4 {
            assert(repo.subrange(repo.len() - 4, repo.len() as int) =~= ".git"@);
        } else {
            assert(s[n] == '/');
        }
        assert(false);
    }
    // The pieces are the two names.
    scan::lemma_first_of_unique(s, '/', n);
    assert(s.take(n) =~= owner);
    assert(s.skip(n + 1) =~= repo);
    scan::lemma_first_of_unique(repo, '/', repo.len() as int);
    assert(scan::pieces(repo, '/') =~= seq![repo]);
    assert(scan::pieces(s, '/') =~= seq![owner, repo]);
}

/// The first look at a link alerts nobody, and seeing the same state again does
/// not alert either.
pub proof fn law_activity_alerts_once(link: LinkView, updated_at: i64, url: Seq<char>, title: Seq<char>)
    ensures
        link.last_seen is None ==> !is_news(link, updated_at),
        !is_news(seen(link, updated_at, url, title), updated_at),
{
}

/// What was last seen never goes back.
pub proof fn law_last_seen_is_monotonic(link: LinkView, updated_at: i64, url: Seq<char>, title: Seq<char>)
    ensures
        ({
            let after = seen(link, updated_at, url, title).last_seen;
            &&& after is Some
            &&& after->0 >= updated_at
            &&& link.last_seen is Some ==> after->0 >= link.last_seen->0
        }),
{
}

/// New activity on the link of a task that is not active raises its dot, and
/// leaves every other task as it was.
pub proof fn law_activity_raises_the_dot(
    list: ListView,
    id: TaskId,
    updated_at: i64,
    url: Seq<char>,
    title: Seq<char>,
)
    requires
        list.wf(),
        link_of(list, id) is Some,
        is_news(link_of(list, id)->0, updated_at),
        list.active != Some(id),
    ensures
        ({
            let after = with_activity(list, id, updated_at, url, title);
            let k = tasklist::task_index(list.tasks, id);
            &&& after.tasks.len() == list.tasks.len()
            &&& after.tasks[k].has_notification
            &&& forall|i: int|
                0 <= i < list.tasks.len() && i != k ==> #[trigger] after.tasks[i] == list.tasks[i]
        }),
{
    tasklist::lemma_task_index(list.tasks, id);
    let k = tasklist::task_index(list.tasks, id);
    let t = TaskView {
        github: Some(seen(link_of(list, id)->0, updated_at, url, title)),
        ..list.tasks[k]
    };
    let mid = list.with_task(k, t);
    tasklist::lemma_task_index(mid.tasks, id);
    let j = tasklist::task_index(mid.tasks, id);
    assert(mid.tasks[k].id == id);
    if j != k {
        assert(mid.tasks[j].id == list.tasks[j].id);
    }
}

/// A path that starts with two names names that repository.
proof fn lemma_first_two_pieces(owner: Seq<char>, repo: Seq<char>, more: Seq<char>)
    requires
        owner.len() > 0,
        repo.len() > 0,
        forall|i: int| 0 <= i < owner.len() ==> owner[i] != '/',
        forall|i: int| 0 <= i < repo.len() ==> repo[i] != '/',
        more.len() > 0 ==> more[0] == '/',
    ensures
        ({
            let p = scan::pieces(owner + seq!['/'] + repo + more, '/');
            p.len() >= 2 && p[0] == owner && p[1] == repo
        }),
{
    let s = owner + seq!['/'] + repo + more;
    let n = owner.len() as int;
    assert(s[n] == '/');
    assert forall|j: int| 0 <= j < n implies s[j] != '/' by {
        assert(s[j] == owner[j]);
    }
    scan::lemma_first_of_unique(s, '/', n);
    assert(s.take(n) =~= owner);
    let t = s.skip(n + 1);
    assert(t =~= repo + more);
    let m = repo.len() as int;
    assert forall|j: int| 0 <= j < m implies t[j] != '/' by {
        assert(t[j] == repo[j]);
    }
    if more.len() > 0 {
        assert(t[m] == more[0]);
    }
    scan::lemma_first_of_unique(t, '/', m);
    assert(t.take(m) =~= repo);
    if m < t.len() {
        assert(scan::pieces(t, '/') =~= seq![repo] + scan::pieces(t.skip(m + 1), '/'));
    } else {
        assert(t =~= repo);
        assert(scan::pieces(t, '/') =~= seq![repo]);
    }
    assert(scan::pieces(s, '/') =~= seq![owner] + scan::pieces(t, '/'));
}

/// The two names are read from a path, whatever follows them.
proof fn lemma_path_names_the_repo(owner: Seq<char>, repo: Seq<char>, tail: Seq<char>)
    requires
        owner.len() > 0,
        repo.len() > 0,
        forall|i: int| 0 <= i < owner.len() ==> owner[i] != '/',
        forall|i: int| 0 <= i < repo.len() ==> repo[i] != '/',
        !scan::finishes_with(repo, ".git"@),
        tail.len() == 0 || tail == ".git"@ || tail == ".git/"@ || tail[0] == '/',
    ensures
        owner_and_repo(owner + seq!['/'] + repo + tail) == Some((owner, repo)),
{
    reveal_strlit("/");
    reveal_strlit(".git");
    reveal_strlit(".git/");
    let base = owner + seq!['/'] + repo;
    let path = base + tail;
    let one = scan::without_suffix(path, "/"@);
    let rest = scan::without_suffix(one, ".git"@);
    let b = base.len() as int;
    // What is left of the tail once its slash is gone.
    let t1 = if tail.len() > 0 && tail.last() == '/' {
        tail.drop_last()
    } else {
        tail
    };
    assert(path.len() == b + tail.len());
    if tail.len() > 0 {
        assert(path.last() == tail.last());
    } else {
        assert(path.last() == repo.last());
    }
    assert(one =~= base + t1) by {
        if path.last() == '/' {
            assert(path.subrange(path.len() - 1, path.len() as int) =~= "/"@);
            assert(path.take(path.len() - 1) =~= base + t1);
        } else {
            if scan::finishes_with(path, "/"@) {
                assert(path.subrange(path.len() - 1, path.len() as int)[0] == path.last());
            }
            assert(path =~= base + t1);
        }
    }
    if scan::finishes_with(one, ".git"@) {
        let n = one.len() as int;
        let q = one.subrange(n - 4, n);
        assert(q[0] == one[n - 4] && q[1] == one[n - 3] && q[2] == one[n - 2] && q[3] == one[n
            - 1]);
        if t1.len() == 0 {
            // Not the repository's own name.
            assert(one =~= base);
            if repo.len() >= 4 {
                assert(repo.subrange(repo.len() - 4, repo.len() as int) =~= ".git"@);
            } else {
                assert(base[owner.len() as int] == '/');
            }
            assert(false);
        } else if t1 =~= ".git"@ {
            assert(one.take(n - 4) =~= base + Seq::<char>::empty());
            lemma_first_two_pieces(owner, repo, Seq::empty());
        } else {
            assert(t1[0] == '/');
            assert(one[b] == '/');
            assert(t1.len() >= 5);
            assert(one.take(n - 4) =~= base + t1.take(t1.len() - 4));
            lemma_first_two_pieces(owner, repo, t1.take(t1.len() - 4));
        }
    } else {
        if t1 =~= ".git"@ {
            assert(one.subrange(one.len() - 4, one.len() as int) =~= ".git"@);
        }
        assert(t1.len() > 0 ==> t1[0] == '/');
        lemma_first_two_pieces(owner, repo, t1);
    }
}

/// A repository is found in every kind of remote URL, with or without ".git" and
/// a slash behind it, and in the URL of anything in it, such as an issue.
pub proof fn law_remote_urls_name_the_repo(
    prefix: Seq<char>,
    owner: Seq<char>,
    repo: Seq<char>,
    tail: Seq<char>,
)
    requires
        prefix == "https://github.com/"@ || prefix == "http://github.com/"@ || prefix
            == "git@github.com:"@ || prefix == "ssh://git@github.com/"@,
        owner.len() > 0,
        repo.len() > 0,
        forall|i: int| 0 <= i < owner.len() ==> owner[i] != '/',
        forall|i: int| 0 <= i < repo.len() ==> repo[i] != '/',
        !scan::finishes_with(repo, ".git"@),
        !text::is_space(repo.last()),
        tail.len() == 0 || tail == ".git"@ || tail == ".git/"@ || (tail[0] == '/'
            && !text::is_space(tail.last())),
    ensures
        slug_of(prefix + (owner + seq!['/'] + repo + tail)) == Some((owner, repo)),
{
    reveal_strlit("https://github.com/");
    reveal_strlit("http://github.com/");
    reveal_strlit("git@github.com:");
    reveal_strlit("ssh://git@github.com/");
    reveal_strlit(".git");
    reveal_strlit(".git/");
    let path = owner + seq!['/'] + repo + tail;
    let s = prefix + path;
    if tail.len() > 0 {
        assert(s.last() == tail.last());
    } else {
        assert(s.last() == repo.last());
    }
    assert(s[0] == prefix[0]);
    assert(text::trimmed(s) == s);
    scan::law_prefix_and_suffix(prefix, path);
    if prefix != "https://github.com/"@ {
        let j: int = if prefix == "http://github.com/"@ {
            4
        } else {
            0
        };
        assert(s[j] == prefix[j]);
        scan::law_other_texts_keep_their_ends(s, "https://github.com/"@, j);
        if prefix != "http://github.com/"@ {
            scan::law_other_texts_keep_their_ends(s, "http://github.com/"@, 0);
            if prefix != "git@github.com:"@ {
                scan::law_other_texts_keep_their_ends(s, "git@github.com:"@, 0);
            }
        }
    }
    assert(repo_path(s) == Some(path));
    lemma_path_names_the_repo(owner, repo, tail);
}

/// A URL of another host, or a remote of another user, names no repository here.
pub proof fn law_other_hosts_are_refused(s: Seq<char>, i: int)
    requires
        0 <= i < s.len(),
        !text::is_space(s[0]),
        !text::is_space(s.last()),
        s[i] == '@' || (i + 2 < s.len() && s[i] == ':' && s[i + 1] == '/' && s[i + 2] == '/'),
        !scan::begins_with(s, "https://github.com/"@),
        !scan::begins_with(s, "http://github.com/"@),
        !scan::begins_with(s, "git@github.com:"@),
        !scan::begins_with(s, "ssh://git@github.com/"@),
    ensures
        slug_of(s) is None,
{
    reveal_strlit("://");
    reveal_strlit("@");
    assert(text::trimmed(s) == s);
    if s[i] == '@' {
        assert(s.subrange(i, i + 1) =~= "@"@);
        assert(scan::occurs_at(s, "@"@, i));
    } else {
        assert(s.subrange(i, i + 3) =~= "://"@);
        assert(scan::occurs_at(s, "://"@, i));
    }
}

/// A hit is an issue of a known repository, with everything the issue says; the
/// first ten are shown, in order.
pub proof fn law_hits_are_the_first_ten_issues(issues: Seq<Issue>, issue: Issue)
    ensures
        shown_hits(issues).len() <= 10,
        shown_hits(issues).len() < 10 ==> shown_hits(issues.push(issue)) == match slug_of(
            issue.html_url@,
        ) {
            Some((owner, repo)) => shown_hits(issues).push(
                HitView {
                    slug: owner.push('/') + repo,
                    number: issue.number,
                    title: issue.title@,
                    url: issue.html_url@,
                    updated_at: issue.updated_at,
                },
            ),
            None => shown_hits(issues),
        },
        shown_hits(issues).len() == 10 ==> shown_hits(issues.push(issue)) == shown_hits(issues),
        shown_hits(Seq::empty()).len() == 0,
{
    reveal_strlit("/");
    let all = issues.push(issue);
    assert(all.drop_last() =~= issues);
    assert(all.last() == issue);
    match slug_of(issue.html_url@) {
        Some((owner, repo)) => {
            assert(slug_text(owner, repo) =~= owner.push('/') + repo);
        },
        None => {},
    }
    if hits_of(issues).len() >= 10 {
        assert(shown_hits(all) =~= shown_hits(issues));
    }
}

/// The token of the settings comes before that of the environment; a blank one is
/// none.
pub proof fn law_settings_token_comes_first(configured: Seq<char>, env: Option<Seq<char>>, i: int)
    ensures
        0 <= i < configured.len() && !text::is_space(configured[i]) ==> token_of(configured, env)
            == Some(text::trimmed(configured)),
        (forall|j: int| 0 <= j < configured.len() ==> text::is_space(#[trigger] configured[j]))
            ==> match env {
            Some(t) => {
                &&& 0 <= i < t.len() && !text::is_space(t[i]) ==> token_of(configured, env) == Some(
                    t,
                )
                &&& (forall|j: int| 0 <= j < t.len() ==> text::is_space(#[trigger] t[j]))
                    ==> token_of(configured, env) is None
            },
            None => token_of(configured, env) is None,
        },
{
    text::lemma_trimmed_empty(configured);
    if let Some(t) = env {
        text::lemma_trimmed_empty(t);
    }
}

/// Every linked task is polled, in order, for its own issue.
pub proof fn law_linked_tasks_are_polled(tasks: Seq<TaskView>)
    ensures
        polls_of(tasks) == tasks.filter(|t: TaskView| t.github is Some).map_values(
            |t: TaskView| PollView {
                task_id: t.id.0,
                slug: t.github->0.slug,
                number: t.github->0.number,
            },
        ),
    decreases tasks.len(),
{
    reveal(Seq::filter);
    let linked = |t: TaskView| t.github is Some;
    let asked = |t: TaskView| PollView {
        task_id: t.id.0,
        slug: t.github->0.slug,
        number: t.github->0.number,
    };
    if tasks.len() > 0 {
        law_linked_tasks_are_polled(tasks.drop_last());
        let before = tasks.drop_last().filter(linked);
        assert(before.push(tasks.last()).map_values(asked) =~= before.map_values(asked).push(
            asked(tasks.last()),
        ));
        assert(polls_of(tasks) =~= tasks.filter(linked).map_values(asked));
    } else {
        assert(polls_of(tasks) =~= tasks.filter(linked).map_values(asked));
    }
}

/// Activity is news when it is later than what was seen before; then and at the
/// first look the link moves on to it, and it always takes the new title and URL.
pub proof fn law_later_activity_is_news(
    link: LinkView,
    updated_at: i64,
    url: Seq<char>,
    title: Seq<char>,
)
    ensures
        is_news(link, updated_at) <==> link.last_seen is Some && link.last_seen->0 < updated_at,
        ({
            let r = seen(link, updated_at, url, title);
            &&& r.slug == link.slug
            &&& r.number == link.number
            &&& r.url == url
            &&& r.title == title
            &&& link.last_seen is None || link.last_seen->0 < updated_at ==> r.last_seen == Some(
                updated_at,
            )
            &&& link.last_seen is Some && link.last_seen->0 >= updated_at ==> r.last_seen
                == link.last_seen
        }),
{
}

/// Activity refreshes the link of its task. The task gets a dot for news, unless
/// it is the one being looked at; every other task stays as it is.
pub proof fn law_activity_reaches_its_task(
    list: ListView,
    id: TaskId,
    k: int,
    link: LinkView,
    updated_at: i64,
    url: Seq<char>,
    title: Seq<char>,
)
    requires
        list.wf(),
        0 <= k < list.tasks.len(),
        list.tasks[k].id == id,
        list.tasks[k].github == Some(link),
    ensures
        ({
            let r = with_activity(list, id, updated_at, url, title);
            let news = link.last_seen is Some && link.last_seen->0 < updated_at && list.active
                != Some(id);
            &&& r.tasks == list.tasks.update(
                k,
                TaskView {
                    github: Some(seen(link, updated_at, url, title)),
                    has_notification: news || list.tasks[k].has_notification,
                    ..list.tasks[k]
                },
            )
            &&& r.active == list.active
            &&& r.active_since == list.active_since
            &&& r.time_log == list.time_log
            &&& r.window_task == list.window_task
            &&& link_of(list, id) == Some(link)
        }),
{
    assert forall|j: int| 0 <= j < k implies (#[trigger] list.tasks[j]).id != id by {
        assert(list.tasks[j].id != list.tasks[k].id);
    }
    tasklist::lemma_task_index_unique(list.tasks, id, k);
    let t = TaskView { github: Some(seen(link, updated_at, url, title)), ..list.tasks[k] };
    let m = list.with_task(k, t);
    assert forall|j: int| 0 <= j < k implies (#[trigger] m.tasks[j]).id != id by {
        assert(m.tasks[j] == list.tasks[j]);
    }
    tasklist::lemma_task_index_unique(m.tasks, id, k);
    let r = with_activity(list, id, updated_at, url, title);
    let news = is_news(link, updated_at) && list.active != Some(id);
    assert(r.tasks =~= list.tasks.update(
        k,
        TaskView {
            github: Some(seen(link, updated_at, url, title)),
            has_notification: news || list.tasks[k].has_notification,
            ..list.tasks[k]
        },
    ));
}

/// Activity of a task that is gone, or has no link, changes nothing.
pub proof fn law_activity_of_nothing_is_ignored(
    list: ListView,
    id: TaskId,
    updated_at: i64,
    url: Seq<char>,
    title: Seq<char>,
)
    requires
        forall|i: int|
            0 <= i < list.tasks.len() && (#[trigger] list.tasks[i]).id == id
                ==> list.tasks[i].github is None,
    ensures
        with_activity(list, id, updated_at, url, title) == list,
        link_of(list, id) is None,
{
    tasklist::lemma_task_index(list.tasks, id);
    if list.has_task(id) {
        assert(list.tasks[tasklist::task_index(list.tasks, id)].id == id);
    }
}

/// The alert names the repository and the number of the issue.
pub proof fn law_headline_names_the_issue(link: LinkView)
    ensures
        ({
            let lead = "New activity on "@;
            let h = headline(link);
            let n = lead.len() + link.slug.len();
            &&& h.take(lead.len() as int) == lead
            &&& h.subrange(lead.len() as int, n as int) == link.slug
            &&& h[n as int] == '#'
            &&& h.skip(n as int + 1) == scan::decimal(link.number as nat)
        }),
{
    reveal_strlit("#");
    let lead = "New activity on "@;
    let h = headline(link);
    let n = lead.len() + link.slug.len();
    assert(h.take(lead.len() as int) =~= lead);
    assert(h.subrange(lead.len() as int, n as int) =~= link.slug);
    assert(h.skip(n as int + 1) =~= scan::decimal(link.number as nat));
}

/// A result is shown with what the hit says, and is the selected one where it is
/// the linked issue: the same number in the same repository.
pub proof fn law_results_show_the_hits(row: IssueResult, hit: HitView, link: Option<GithubLink>)
    requires
        shows_hit(row, hit, link),
        hit.number <= i32::MAX,
    ensures
        row.slug@ == hit.slug,
        row.number == hit.number,
        row.title@ == hit.title,
        row.url@ == hit.url,
        row.selected <==> match link {
            Some(l) => l.slug@ == hit.slug && l.number == hit.number,
            None => false,
        },
{
}

/// Picking an issue links it, unseen so far, and selects its row alone.
pub proof fn law_picked_issue_is_linked(
    slug: Seq<char>,
    number: i32,
    title: Seq<char>,
    url: Seq<char>,
    before: IssueResult,
    after: IssueResult,
)
    requires
        number >= 0,
    ensures
        slug.len() > 0 ==> match picked(slug, number, title, url) {
            Some(l) => l.slug == slug && l.number == number && l.title == title && l.url == url
                && l.last_seen is None,
            None => false,
        },
        slug.len() == 0 ==> picked(slug, number, title, url) is None,
        marks_row(before, after, slug, number) ==> (after.selected <==> after.slug@ == slug
            && after.number == number) && after.slug == before.slug && after.number
            == before.number && after.title == before.title && after.url == before.url,
{
}

/// A path without two names, each of at least one character, names no repository.
pub proof fn law_incomplete_paths_name_nothing(name: Seq<char>, more: Seq<char>)
    requires
        !name.contains('/'),
        name.len() > 0,
        name != ".git"@,
    ensures
        owner_and_repo(name) is None,
        owner_and_repo(name.push('/')) is None,
        more.len() > 0 && more != "/"@ ==> owner_and_repo(seq!['/'] + more) is None,
{
    reveal_strlit("/");
    reveal_strlit(".git");
    assert forall|i: int| 0 <= i < name.len() implies name[i] != '/' by {
        assert(name.contains(name[i]));
    }
    lemma_one_piece(scan::without_suffix(name, ".git"@));
    if scan::finishes_with(name, "/"@) {
        assert(name.subrange(name.len() - 1, name.len() as int)[0] == name[name.len() - 1]);
    }
    let n = name.push('/');
    assert(n.subrange(n.len() - 1, n.len() as int) =~= "/"@);
    assert(n.take(n.len() - 1) =~= name);
    assert(scan::without_suffix(n, "/"@) == name);
    if more.len() > 0 && more != "/"@ {
        let s = seq!['/'] + more;
        let one = scan::without_suffix(s, "/"@);
        assert(one.len() > 0 && one[0] == '/') by {
            if scan::finishes_with(s, "/"@) {
                assert(s.take(s.len() - 1)[0] == '/');
            }
        }
        let rest = scan::without_suffix(one, ".git"@);
        assert(rest.len() > 0 && rest[0] == '/') by {
            if scan::finishes_with(one, ".git"@) {
                if one.len() == 4 {
                    assert(one.subrange(0, 4)[0] == one[0]);
                }
                assert(one.take(one.len() - 4)[0] == '/');
            }
        }
        scan::lemma_first_of_unique(rest, '/', 0);
        assert(rest.take(0).len() == 0);
        assert(scan::pieces(rest, '/')[0] == rest.take(0));
    }
}

/// A text without a slash is one piece.
proof fn lemma_one_piece(s: Seq<char>)
    ensures
        (forall|i: int| 0 <= i < s.len() ==> s[i] != '/') ==> scan::pieces(s, '/') == seq![s],
{
    if forall|i: int| 0 <= i < s.len() ==> s[i] != '/' {
        scan::lemma_first_of_unique(s, '/', s.len() as int);
        assert(scan::pieces(s, '/') =~= seq![s]);
    }
}

} // verus!
