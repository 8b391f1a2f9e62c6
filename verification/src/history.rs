//! Scoring a repository over its history.
//!
//! A single score answers "how are we doing". A history answers "what did this
//! change", and needs no reference population, because the baseline is the
//! repository's own past.

use vstd::prelude::*;

use crate::json::{self, Json, JsonV};
use crate::said;
use crate::score;
use crate::table::{self, Table};
use crate::text::{self, Text};
use crate::vfs;

verus! {

/// One commit, scored.
pub struct CommitScore {
    pub sha: String,
    pub short: String,
    pub subject: String,
    pub author: String,
    pub date: String,
    pub lines: u64,
    pub scores: Table<u32>,
    /// Change against the previous commit in this walk, per category.
    pub delta: Table<i64>,
}

#[verifier::ext_equal]
pub struct CommitV {
    pub sha: Text,
    pub short: Text,
    pub subject: Text,
    pub author: Text,
    pub date: Text,
    pub lines: u64,
    pub scores: Seq<(Text, u32)>,
    pub delta: Seq<(Text, i64)>,
}

impl DeepView for CommitScore {
    type V = CommitV;

    open spec fn deep_view(&self) -> CommitV {
        CommitV {
            sha: self.sha@,
            short: self.short@,
            subject: self.subject@,
            author: self.author@,
            date: self.date@,
            lines: self.lines,
            scores: self.scores.deep_view(),
            delta: self.delta.deep_view(),
        }
    }
}

// --- where a repository is ---------------------------------------------------

/// The branch that is walked, out of what is said of `HEAD`. A detached head
/// has no branch name.
pub open spec fn branch_of(raw: Option<Text>) -> Text {
    match raw {
        Some(raw) => if text::trimmed(raw) == "HEAD"@ {
            "detached"@
        } else {
            text::trimmed(raw)
        },
        None => "unknown"@,
    }
}

pub fn branch_name(raw: Option<&str>) -> (s: String)
    ensures
        s@ == branch_of(
            match raw {
                Some(raw) => Some(raw@),
                None => None,
            },
        ),
{
    match raw {
        Some(raw) => {
            let name = text::trim(raw);
            if text::same(name.as_str(), "HEAD") {
                "detached".to_owned()
            } else {
                name
            }
        },
        None => "unknown".to_owned(),
    }
}

/// A remote without the space, the slashes and the suffix at its end.
pub open spec fn tidied(raw: Text) -> Text {
    let raw = text::shorn_end(text::trimmed(raw), "/"@);
    match text::without_suffix(raw, ".git"@) {
        Some(s) => s,
        None => raw,
    }
}

/// A remote as a page that can be opened, whatever form it is configured in.
pub open spec fn page_of(raw: Text) -> Option<Text> {
    let raw = tidied(raw);
    match text::without_prefix(raw, "git@"@) {
        Some(rest) => match text::cut(rest, ":"@) {
            Some((host, path)) => Some("https://"@ + host + "/"@ + path),
            None => None,
        },
        None => match text::without_prefix(raw, "ssh://git@"@) {
            Some(rest) => Some("https://"@ + rest),
            None => if text::has_prefix(raw, "http://"@) || text::has_prefix(raw, "https://"@) {
                Some(raw)
            } else {
                None
            },
        },
    }
}

pub fn remote_url(raw: &str) -> (s: Option<String>)
    ensures
        s.deep_view() == page_of(raw@),
{
    proof {
        reveal_strlit("/");
    }
    let trimmed = text::trim_end_matches(text::trim(raw).as_str(), "/");
    let raw = match text::strip_suffix(trimmed.as_str(), ".git") {
        Some(s) => s,
        None => trimmed,
    };
    let raw = raw.as_str();
    if let Some(rest) = text::strip_prefix(raw, "git@") {
        return match text::split_once(rest.as_str(), ":") {
            Some((host, path)) => Some(text::cat4("https://", host.as_str(), "/", path.as_str())),
            None => None,
        };
    }
    if let Some(rest) = text::strip_prefix(raw, "ssh://git@") {
        return Some(text::cat("https://", rest.as_str()));
    }
    if text::starts_with(raw, "http://") || text::starts_with(raw, "https://") {
        Some(raw.to_owned())
    } else {
        None
    }
}

/// A remote that ends in `.git` is tidied by taking that off.
proof fn lemma_tidied(front: Text)
    requires
        front.len() > 0,
        !text::is_space(front[0]),
    ensures
        tidied(front + ".git"@) == front,
{
    reveal_strlit(".git");
    reveal_strlit("/");
    let raw = front + ".git"@;
    assert(raw.last() == 't' && !text::is_space('t'));
    assert(text::trimmed(raw) == raw);
    assert(!text::has_suffix(raw, "/"@)) by {
        if text::has_suffix(raw, "/"@) {
            assert(raw.subrange(raw.len() - 1, raw.len() as int)[0] == "/"@[0]);
        }
    }
    assert(raw.subrange(front.len() as int, raw.len() as int) =~= ".git"@);
    assert(raw.take(front.len() as int) =~= front);
}

/// `git@host:path.git`, `ssh://git@host/path.git` and the https form all name
/// the same page.
pub proof fn lemma_one_page(host: Text, path: Text)
    requires
        !host.contains(':'),
    ensures
        page_of("git@"@ + host + ":"@ + path + ".git"@) == Some("https://"@ + host + "/"@ + path),
        page_of("ssh://git@"@ + host + "/"@ + path + ".git"@) == Some(
            "https://"@ + host + "/"@ + path,
        ),
        page_of("https://"@ + host + "/"@ + path + ".git"@) == Some(
            "https://"@ + host + "/"@ + path,
        ),
{
    reveal_strlit("git@");
    reveal_strlit("ssh://git@");
    reveal_strlit("http://");
    reveal_strlit("https://");
    reveal_strlit(":");
    let short = "git@"@ + host + ":"@ + path;
    let long = "ssh://git@"@ + host + "/"@ + path;
    let web = "https://"@ + host + "/"@ + path;
    assert(!text::is_space('g') && !text::is_space('s') && !text::is_space('h'));
    lemma_tidied(short);
    lemma_tidied(long);
    lemma_tidied(web);
    // git@host:path
    assert(short.subrange(0, 4) =~= "git@"@);
    let rest = short.skip(4);
    assert(rest =~= host + ":"@ + path);
    text::lemma_find_from(rest, ":"@, 0);
    assert(rest.subrange(host.len() as int, host.len() as int + 1) =~= ":"@);
    assert(text::occurs_at(rest, ":"@, host.len() as int));
    assert forall|j: int| 0 <= j < host.len() implies !text::occurs_at(rest, ":"@, j) by {
        if text::occurs_at(rest, ":"@, j) {
            assert(rest.subrange(j, j + 1)[0] == ':');
            assert(host[j] == ':');
        }
    }
    assert(text::find(rest, ":"@) == Some(host.len() as int));
    assert(rest.take(host.len() as int) =~= host);
    assert(rest.skip(host.len() as int + 1) =~= path);
    // ssh://git@host/path
    assert(!text::has_prefix(long, "git@"@)) by {
        if text::has_prefix(long, "git@"@) {
            assert(long.subrange(0, 4)[0] == 'g');
        }
    }
    assert(long.subrange(0, 10) =~= "ssh://git@"@);
    assert("https://"@ + long.skip(10) =~= web);
    // https://host/path
    assert(!text::has_prefix(web, "git@"@)) by {
        if text::has_prefix(web, "git@"@) {
            assert(web.subrange(0, 4)[0] == 'g');
        }
    }
    assert(!text::has_prefix(web, "ssh://git@"@)) by {
        if text::has_prefix(web, "ssh://git@"@) {
            assert(web.subrange(0, 10)[0] == 's');
        }
    }
    assert(web.subrange(0, 8) =~= "https://"@);
}

/// The page of a repository's history, for hosts whose layout is known. A
/// guess would be a link that leads nowhere.
pub open spec fn commits_page(remote: Text) -> Option<Text> {
    if text::has_part(remote, "github.com"@) {
        Some(remote + "/commits/"@)
    } else if text::has_part(remote, "gitlab.com"@) {
        Some(remote + "/-/commits/"@)
    } else {
        None
    }
}

pub fn commits_url(remote: &str) -> (s: Option<String>)
    ensures
        s.deep_view() == commits_page(remote@),
{
    if text::contains(remote, "github.com") {
        Some(text::cat(remote, "/commits/"))
    } else if text::contains(remote, "gitlab.com") {
        Some(text::cat(remote, "/-/commits/"))
    } else {
        None
    }
}

/// The name a repository is published under, out of its remote.
pub open spec fn slug_of(remote: Text) -> Option<Text> {
    match text::cut(remote, "://"@) {
        Some((_, rest)) => {
            let parts = text::pieces(rest, "/"@);
            if parts.len() >= 3 && parts[1].len() > 0 && parts[2].len() > 0 {
                Some(parts[1] + "/"@ + parts[2])
            } else {
                None
            }
        },
        None => None,
    }
}

pub fn slug(remote: &str) -> (s: Option<String>)
    ensures
        s.deep_view() == slug_of(remote@),
{
    proof {
        reveal_strlit("/");
    }
    match text::split_once(remote, "://") {
        Some((_, rest)) => {
            let parts = text::split(rest.as_str(), "/");
            if parts.len() < 3 {
                return None;
            }
            assert(parts.deep_view()[1] == parts@[1]@);
            assert(parts.deep_view()[2] == parts@[2]@);
            let (org, repo) = (parts[1].as_str(), parts[2].as_str());
            if text::is_empty(org) || text::is_empty(repo) {
                return None;
            }
            Some(text::cat3(org, "/", repo))
        },
        None => None,
    }
}

/// The name an export is published under: the one that is given, without the
/// slashes around it, or else the one that the remote names.
pub open spec fn export_name(given: Option<Text>, remote: Option<Text>) -> Option<Text> {
    match given {
        Some(name) => Some(text::shorn_end(text::shorn_start(name, "/"@), "/"@)),
        None => match remote {
            Some(remote) => slug_of(remote),
            None => None,
        },
    }
}

pub fn published_as(given: Option<&str>, remote: &Option<String>) -> (s: Option<String>)
    ensures
        s.deep_view() == export_name(
            match given {
                Some(name) => Some(name@),
                None => None,
            },
            remote.deep_view(),
        ),
{
    match given {
        Some(name) => {
            let name = text::trim_start_matches(name, "/");
            Some(text::trim_end_matches(name.as_str(), "/"))
        },
        None => match remote {
            Some(remote) => slug(remote.as_str()),
            None => None,
        },
    }
}

// --- the walk ----------------------------------------------------------------

/// How many commits are walked when nothing else is said.
pub const COMMITS: u64 = 20;

/// How many are exported.
pub const EXPORTED: u64 = 5;

pub open spec fn count_of(given: Option<Text>, other: u64) -> u64 {
    match given {
        Some(s) => match text::count_number(s) {
            Some(n) => n,
            None => other,
        },
        None => other,
    }
}

/// What is asked of `git` for the commits of a walk: the first parents only,
/// oldest first.
pub open spec fn walk_of(since: Option<Text>, commits: Option<Text>, other: u64) -> Seq<Text> {
    let head = seq!["rev-list"@].push("--first-parent"@).push("--reverse"@);
    match since {
        Some(since) => head.push(since + "..HEAD"@),
        None => head.push("-n"@).push(text::decimal_of(count_of(commits, other) as nat)).push(
            "HEAD"@,
        ),
    }
}

pub fn walk(since: Option<&str>, commits: Option<&str>, other: u64) -> (args: Vec<String>)
    ensures
        args.deep_view() == walk_of(
            match since {
                Some(since) => Some(since@),
                None => None,
            },
            match commits {
                Some(commits) => Some(commits@),
                None => None,
            },
            other,
        ),
{
    let mut args: Vec<String> = Vec::new();
    text::push(&mut args, "rev-list".to_owned());
    text::push(&mut args, "--first-parent".to_owned());
    text::push(&mut args, "--reverse".to_owned());
    assert(args.deep_view() =~= seq!["rev-list"@].push("--first-parent"@).push("--reverse"@));
    match since {
        Some(since) => {
            text::push(&mut args, text::cat(since, "..HEAD"));
        },
        None => {
            let n: u64 = match commits {
                Some(s) => match text::parse_count(s) {
                    Some(n) => n,
                    None => other,
                },
                None => other,
            };
            text::push(&mut args, "-n".to_owned());
            text::push(&mut args, text::decimal(n));
            text::push(&mut args, "HEAD".to_owned());
        },
    }
    args
}

pub open spec fn filled(lines: Seq<Text>, n: nat) -> Seq<Text>
    decreases n,
{
    if n == 0 {
        seq![]
    } else {
        let before = filled(lines, (n - 1) as nat);
        if lines[n - 1].len() > 0 {
            before.push(lines[n - 1])
        } else {
            before
        }
    }
}

/// The commits that `git` lists.
pub open spec fn listed(output: Text) -> Seq<Text> {
    filled(text::lines_of(output), text::lines_of(output).len())
}

pub fn shas(output: &str) -> (out: Vec<String>)
    ensures
        out.deep_view() == listed(output@),
{
    let lines = text::lines(output);
    let mut out: Vec<String> = Vec::new();
    assert(out.deep_view() =~= seq![]);
    let mut i: usize = 0;
    while i < lines.len()
        invariant
            i <= lines.len(),
            out.deep_view() == filled(lines.deep_view(), i as nat),
        decreases lines.len() - i,
    {
        assert(lines.deep_view()[i as int] == lines@[i as int]@);
        if !text::is_empty(lines[i].as_str()) {
            text::push(&mut out, lines[i].clone());
        }
        i += 1;
    }
    out
}

/// The first characters of a commit's name.
pub fn abbreviated(sha: &str, n: usize) -> (s: String)
    requires
        n <= sha@.len(),
    ensures
        s@ == sha@.take(n as int),
{
    let chars = text::to_chars(sha);
    let s = text::slice(&chars, 0, n);
    assert(s@ =~= sha@.take(n as int));
    s
}

/// What `git` says of a commit, taken apart, with nothing where it says less.
pub open spec fn told(parts: Seq<Text>, i: int) -> Text {
    if i < parts.len() {
        parts[i]
    } else {
        seq![]
    }
}

/// The sign that stands between what `git` says of a commit.
pub const UNIT: &'static str = "\u{1f}";

/// A commit as `git` describes it. The short name stands first where it is
/// asked for, and is given where it is not.
pub open spec fn commit_of(
    sha: Text,
    short: Option<Text>,
    said: Text,
    lines: u64,
    scores: Seq<(Text, u32)>,
) -> CommitV {
    let parts = text::pieces(text::trimmed(said), UNIT@);
    let from = if short is Some {
        0int
    } else {
        1int
    };
    CommitV {
        sha,
        short: match short {
            Some(short) => short,
            None => told(parts, 0),
        },
        subject: told(parts, from),
        author: told(parts, from + 1),
        date: told(parts, from + 2),
        lines,
        scores,
        delta: seq![],
    }
}

fn part(parts: &Vec<String>, i: usize) -> (s: String)
    ensures
        s@ == told(parts.deep_view(), i as int),
{
    if i < parts.len() {
        assert(parts.deep_view()[i as int] == parts@[i as int]@);
        parts[i].clone()
    } else {
        text::empty()
    }
}

impl CommitScore {
    pub fn new(sha: &str, short: Option<&str>, said: &str, lines: u64, scores: Table<u32>) -> (c:
        CommitScore)
        ensures
            c.deep_view() == commit_of(
                sha@,
                match short {
                    Some(short) => Some(short@),
                    None => None,
                },
                said@,
                lines,
                scores.deep_view(),
            ),
    {
        proof {
            reveal_strlit("\u{1f}");
        }
        let parts = text::split(text::trim(said).as_str(), UNIT);
        let (short, from): (String, usize) = match short {
            Some(short) => (short.to_owned(), 0),
            None => (part(&parts, 0), 1),
        };
        CommitScore {
            sha: sha.to_owned(),
            short,
            subject: part(&parts, from),
            author: part(&parts, from + 1),
            date: part(&parts, from + 2),
            lines,
            scores,
            delta: Table::new(),
        }
    }
}

// --- movement ----------------------------------------------------------------

/// What changed in the first `n` categories. One that was not there before did
/// not move.
pub open spec fn moved(scores: Seq<(Text, u32)>, before: Seq<(Text, u32)>, n: nat) -> Seq<
    (Text, i64),
>
    decreases n,
{
    if n == 0 {
        seq![]
    } else {
        let done = moved(scores, before, (n - 1) as nat);
        let (category, now) = scores[n - 1];
        match table::lookup(before, category) {
            Some(then) => if then != now {
                table::put(done, category, (now - then) as i64)
            } else {
                done
            },
            None => done,
        }
    }
}

/// Change against the previous commit of a walk, per category.
pub fn delta(scores: &Table<u32>, before: &Table<u32>) -> (out: Table<i64>)
    ensures
        out.deep_view() == moved(
            scores.deep_view(),
            before.deep_view(),
            scores.deep_view().len(),
        ),
{
    let mut out: Table<i64> = Table::new();
    let end: usize = scores.len();
    let mut i: usize = 0;
    while i < end
        invariant
            i <= end == scores.deep_view().len(),
            out.deep_view() == moved(scores.deep_view(), before.deep_view(), i as nat),
        decreases end - i,
    {
        let now: u32 = *scores.value_at(i);
        if let Some(then) = before.get(scores.name_at(i).as_str()) {
            if *then != now {
                let _ = out.insert(scores.name_at(i).clone(), now as i64 - *then as i64);
            }
        }
        i += 1;
    }
    out
}

/// A commit as it joins a walk: with the change since the last one of it, and as
/// it came where there is none.
pub open spec fn joining(commits: Seq<CommitV>, commit: CommitV) -> CommitV {
    if commits.len() == 0 {
        commit
    } else {
        CommitV {
            delta: moved(commit.scores, commits.last().scores, commit.scores.len()),
            ..commit
        }
    }
}

/// Adds a commit to a walk.
pub fn add(commits: &mut Vec<CommitScore>, commit: CommitScore)
    ensures
        final(commits).deep_view() == old(commits).deep_view().push(
            joining(old(commits).deep_view(), commit.deep_view()),
        ),
{
    let mut commit = commit;
    let ghost before = commits.deep_view();
    if commits.len() > 0 {
        let last = commits.len() - 1;
        assert(before.last() == commits@[last as int].deep_view());
        commit.delta = delta(&commit.scores, &commits[last].scores);
    }
    text::push(commits, commit);
}

/// The walk that the first `n` commits make, each added in turn.
pub open spec fn in_turn(commits: Seq<CommitV>, n: nat) -> Seq<CommitV>
    decreases n,
{
    if n == 0 {
        seq![]
    } else {
        let before = in_turn(commits, (n - 1) as nat);
        before.push(joining(before, commits[n - 1]))
    }
}

/// In a walk each commit is told against the one before it, and the first as it
/// came. Nothing else of a commit changes.
pub proof fn lemma_in_turn(commits: Seq<CommitV>, n: nat, i: int)
    requires
        0 <= i < n <= commits.len(),
    ensures
        in_turn(commits, n).len() == n,
        in_turn(commits, n)[i] == (if i == 0 {
            commits[0]
        } else {
            CommitV {
                delta: moved(
                    commits[i].scores,
                    commits[i - 1].scores,
                    commits[i].scores.len(),
                ),
                ..commits[i]
            }
        }),
    decreases n,
{
    let before = in_turn(commits, (n - 1) as nat);
    if n == 1 {
        assert(before =~= seq![]);
    } else if i < n - 1 {
        lemma_in_turn(commits, (n - 1) as nat, i);
    } else {
        lemma_in_turn(commits, (n - 1) as nat, i - 1);
        assert(before.last() == before[i - 1]);
    }
}

proof fn lemma_moved_from(scores: Seq<(Text, u32)>, before: Seq<(Text, u32)>, n: nat, category: Text)
    requires
        table::ordered(scores),
        n <= scores.len(),
    ensures
        table::lookup(moved(scores, before, n), category) == (match (
            table::lookup(scores.take(n as int), category),
            table::lookup(before, category),
        ) {
            (Some(now), Some(then)) => if now == then {
                None
            } else {
                Some((now - then) as i64)
            },
            _ => None,
        }),
    decreases n,
{
    broadcast use table::lemma_lookup_push;

    if n == 0 {
        assert(scores.take(0) =~= seq![]);
    } else {
        let done = moved(scores, before, (n - 1) as nat);
        let (name, now) = scores[n - 1];
        lemma_moved_from(scores, before, (n - 1) as nat, category);
        assert(scores.take(n as int) =~= scores.take(n - 1).push(scores[n - 1]));
        if let Some(then) = table::lookup(before, name) {
            table::lemma_put_lookup(done, name, (now - then) as i64, category);
        }
        let head = scores.take(n - 1);
        assert forall|i: int| 0 <= i < head.len() implies #[trigger] head[i].0 != name by {
            assert(text::less(scores[i].0, scores[n - 1].0));
            text::lemma_less_irreflexive(name);
        }
        table::lemma_lookup_missing(head, name);
    }
}

/// A category moved exactly when two commits score it differently, and by the
/// difference.
pub proof fn lemma_delta(scores: Seq<(Text, u32)>, before: Seq<(Text, u32)>, category: Text)
    requires
        table::ordered(scores),
    ensures
        table::lookup(moved(scores, before, scores.len()), category) == (match (
            table::lookup(scores, category),
            table::lookup(before, category),
        ) {
            (Some(now), Some(then)) => if now == then {
                None
            } else {
                Some((now - then) as i64)
            },
            _ => None,
        }),
{
    lemma_moved_from(scores, before, scores.len(), category);
    assert(scores.take(scores.len() as int) =~= scores);
}

// --- what is shown while it runs ---------------------------------------------

/// Whether the first `k` characters of a text are its first three bytes.
pub open spec fn is_cut(s: Text, k: int) -> bool {
    0 <= k <= s.len() && vfs::bytes_in(s.take(k)) == 3
}

/// The first three bytes of a text, where a character ends there.
pub open spec fn three_bytes(s: Text) -> Text {
    s.take(choose|k: int| is_cut(s, k))
}

/// Every category has three bytes to be shown by, with the end of a character
/// behind them.
pub open spec fn has_letters(scores: Seq<(Text, u32)>) -> bool {
    forall|i: int|
        0 <= i < scores.len() ==> exists|k: int| is_cut((#[trigger] scores[i]).0, k)
}

proof fn lemma_cut_once(s: Text, j: int, k: int)
    requires
        0 <= j < k <= s.len(),
    ensures
        vfs::bytes_in(s.take(j)) < vfs::bytes_in(s.take(k)),
    decreases k - j,
{
    assert(s.take(k).drop_last() =~= s.take(k - 1));
    if j < k - 1 {
        lemma_cut_once(s, j, k - 1);
    }
}

/// The first three bytes of a text.
fn first_bytes(s: &str) -> (out: String)
    requires
        exists|k: int| is_cut(s@, k),
    ensures
        out@ == three_bytes(s@),
{
    let chars = text::to_chars(s);
    let ghost cut = choose|k: int| is_cut(s@, k);
    let mut n: usize = 0;
    let mut i: usize = 0;
    assert(s@.take(0) =~= seq![]);
    while n < 3
        invariant
            i <= cut <= chars.len(),
            is_cut(s@, cut),
            chars@ == s@,
            n == vfs::bytes_in(s@.take(i as int)) <= 3,
        decreases 3 - n,
    {
        assert(i < cut);
        assert(s@.take(i + 1).drop_last() =~= s@.take(i as int));
        n = n + vfs::char_width(chars[i]);
        i += 1;
        proof {
            if i < cut {
                lemma_cut_once(s@, i as int, cut);
            }
        }
    }
    proof {
        if i < cut {
            lemma_cut_once(s@, i as int, cut);
        }
    }
    let out = text::slice(&chars, 0, i);
    assert(out@ =~= s@.take(i as int));
    out
}

pub open spec fn brief(scores: Seq<(Text, u32)>, n: nat) -> Seq<Text>
    decreases n,
{
    if n == 0 {
        seq![]
    } else {
        brief(scores, (n - 1) as nat).push(
            three_bytes(scores[n - 1].0) + ":"@ + text::decimal_of(scores[n - 1].1 as nat),
        )
    }
}

/// Each category by its first three bytes, with its score.
pub fn show_scores(scores: &Table<u32>) -> (s: String)
    requires
        has_letters(scores.deep_view()),
    ensures
        s@ == text::joined(brief(scores.deep_view(), scores.deep_view().len()), " "@),
{
    let mut out: Vec<String> = Vec::new();
    assert(out.deep_view() =~= seq![]);
    let end: usize = scores.len();
    let mut i: usize = 0;
    while i < end
        invariant
            i <= end == scores.deep_view().len(),
            has_letters(scores.deep_view()),
            out.deep_view() == brief(scores.deep_view(), i as nat),
        decreases end - i,
    {
        let name = first_bytes(scores.name_at(i).as_str());
        let value = text::decimal(*scores.value_at(i) as u64);
        text::push(&mut out, text::cat3(name.as_str(), ":", value.as_str()));
        i += 1;
    }
    text::join(&out, " ")
}

pub open spec fn cut_to(s: Text, n: nat) -> Text {
    if s.len() < n {
        s
    } else {
        s.take(n as int)
    }
}

/// The line that is shown for a commit: where in the walk it stands, what it is
/// and how it scored.
pub open spec fn progress_line(
    at: Text,
    all: nat,
    c: CommitV,
    width: nat,
    tail: Text,
) -> Text {
    "  ["@ + at + "/"@ + text::decimal_of(all) + "] "@ + c.short + " "@ + text::left_in(
        cut_to(c.subject, width),
        width,
    ) + " "@ + text::joined(brief(c.scores, c.scores.len()), " "@) + tail
}

fn show_commit(at: &str, all: usize, c: &CommitScore, width: usize, tail: &str) -> (s: String)
    requires
        has_letters(c.deep_view().scores),
    ensures
        s@ == progress_line(at@, all as nat, c.deep_view(), width as nat, tail@),
{
    let held: usize = text::to_chars(c.subject.as_str()).len();
    let subject = if held < width {
        c.subject.clone()
    } else {
        abbreviated(c.subject.as_str(), width)
    };
    let mut s = text::cat4("  [", at, "/", text::decimal(all as u64).as_str());
    text::extend(&mut s, "] ");
    text::extend(&mut s, c.short.as_str());
    text::extend(&mut s, " ");
    text::extend(&mut s, text::left(subject.as_str(), width).as_str());
    text::extend(&mut s, " ");
    text::extend(&mut s, show_scores(&c.scores).as_str());
    text::extend(&mut s, tail);
    s
}

/// The line of a commit that was scored, the `at`th of a walk.
pub fn scored_line(at: usize, all: usize, c: &CommitScore) -> (s: String)
    requires
        has_letters(c.deep_view().scores),
    ensures
        s@ == progress_line(
            text::right_in(text::decimal_of(at as nat), 3),
            all as nat,
            c.deep_view(),
            52,
            seq![],
        ),
{
    let place = text::right(text::decimal(at as u64).as_str(), 3);
    show_commit(place.as_str(), all, c, 52, text::empty().as_str())
}

/// The line of a commit that was exported.
pub fn exported_line(at: usize, all: usize, c: &CommitScore, reused: bool) -> (s: String)
    requires
        has_letters(c.deep_view().scores),
    ensures
        s@ == progress_line(
            text::decimal_of(at as nat),
            all as nat,
            c.deep_view(),
            48,
            if reused {
                "  (already exported)"@
            } else {
                seq![]
            },
        ),
{
    let tail = if reused {
        "  (already exported)".to_owned()
    } else {
        text::empty()
    };
    show_commit(text::decimal(at as u64).as_str(), all, c, 48, tail.as_str())
}

// --- what is kept ------------------------------------------------------------

pub open spec fn signed_json(n: i64) -> JsonV {
    if n < 0 {
        JsonV::Minus(n)
    } else {
        JsonV::Whole(n as u64)
    }
}

pub open spec fn delta_json(delta: Seq<(Text, i64)>) -> JsonV {
    JsonV::Object(Seq::new(delta.len(), |i: int| (delta[i].0, signed_json(delta[i].1))))
}

fn write_delta(delta: &Table<i64>) -> (j: Json)
    ensures
        j.deep_view() == delta_json(delta.deep_view()),
{
    let ghost held = delta.deep_view();
    let mut fields = json::no_fields();
    let end: usize = delta.len();
    let mut i: usize = 0;
    while i < end
        invariant
            i <= end == held.len(),
            held == delta.deep_view(),
            fields.deep_view() == Seq::new(i as nat, |k: int| (held[k].0, signed_json(held[k].1))),
        decreases end - i,
    {
        let n: i64 = *delta.value_at(i);
        let value = if n < 0 {
            Json::Minus(n)
        } else {
            Json::Whole(n as u64)
        };
        crate::json::add(&mut fields, delta.name_at(i).as_str(), value);
        assert(fields.deep_view() =~= Seq::new(
            (i + 1) as nat,
            |k: int| (held[k].0, signed_json(held[k].1)),
        ));
        i += 1;
    }
    Json::object(fields)
}

pub open spec fn commit_fields(c: CommitV) -> Seq<(Text, JsonV)> {
    seq![("sha"@, JsonV::Str(c.sha))].push(("short"@, JsonV::Str(c.short))).push(
        ("subject"@, JsonV::Str(c.subject)),
    ).push(("author"@, JsonV::Str(c.author))).push(("date"@, JsonV::Str(c.date))).push(
        ("lines"@, JsonV::Whole(c.lines)),
    ).push(("scores"@, score::scores_json(c.scores))).push(("delta"@, delta_json(c.delta)))
}

pub open spec fn commit_json(c: CommitV) -> JsonV {
    JsonV::Object(commit_fields(c))
}

impl CommitScore {
    /// A commit as a value. The change is always there, even when it is empty:
    /// a reader should not have to handle two shapes of one record.
    pub fn write(&self) -> (j: Json)
        ensures
            j.deep_view() == commit_json(self.deep_view()),
    {
        let mut fields = json::no_fields();
        crate::json::add(&mut fields, "sha", Json::str(self.sha.as_str()));
        crate::json::add(&mut fields, "short", Json::str(self.short.as_str()));
        crate::json::add(&mut fields, "subject", Json::str(self.subject.as_str()));
        crate::json::add(&mut fields, "author", Json::str(self.author.as_str()));
        crate::json::add(&mut fields, "date", Json::str(self.date.as_str()));
        crate::json::add(&mut fields, "lines", Json::Whole(self.lines));
        crate::json::add(&mut fields, "scores", score::write_scores(&self.scores));
        crate::json::add(&mut fields, "delta", write_delta(&self.delta));
        assert(fields.deep_view() =~= commit_fields(self.deep_view()));
        Json::object(fields)
    }
}

/// The scores that the first `n` fields are, when they all are.
pub open spec fn scores_read(fields: Seq<(Text, JsonV)>, n: nat) -> Option<Seq<(Text, u32)>>
    decreases n,
{
    if n == 0 {
        Some(seq![])
    } else {
        match (scores_read(fields, (n - 1) as nat), fields[n - 1].1) {
            (Some(before), JsonV::Whole(value)) => if value <= u32::MAX {
                Some(table::put(before, fields[n - 1].0, value as u32))
            } else {
                None
            },
            _ => None,
        }
    }
}

pub open spec fn signed_read(j: JsonV) -> Option<i64> {
    match j {
        JsonV::Minus(n) => Some(n),
        JsonV::Whole(n) => if n <= i64::MAX {
            Some(n as i64)
        } else {
            None
        },
        _ => None,
    }
}

pub open spec fn delta_read(fields: Seq<(Text, JsonV)>, n: nat) -> Option<Seq<(Text, i64)>>
    decreases n,
{
    if n == 0 {
        Some(seq![])
    } else {
        match (delta_read(fields, (n - 1) as nat), signed_read(fields[n - 1].1)) {
            (Some(before), Some(value)) => Some(table::put(before, fields[n - 1].0, value)),
            _ => None,
        }
    }
}

proof fn lemma_scores_refused(fields: Seq<(Text, JsonV)>, at: nat, n: nat)
    requires
        at <= n,
        scores_read(fields, at) is None,
    ensures
        scores_read(fields, n) is None,
    decreases n,
{
    if at < n {
        lemma_scores_refused(fields, at, (n - 1) as nat);
    }
}

proof fn lemma_delta_refused(fields: Seq<(Text, JsonV)>, at: nat, n: nat)
    requires
        at <= n,
        delta_read(fields, at) is None,
    ensures
        delta_read(fields, n) is None,
    decreases n,
{
    if at < n {
        lemma_delta_refused(fields, at, (n - 1) as nat);
    }
}

/// The scores a value holds, when it is an object of nothing else.
pub open spec fn all_scores_read(j: Option<JsonV>) -> Option<Seq<(Text, u32)>> {
    match j {
        Some(JsonV::Object(fields)) => scores_read(fields, fields.len()),
        _ => None,
    }
}

pub fn read_scores(j: Option<&Json>) -> (r: Option<Table<u32>>)
    ensures
        r.deep_view() == all_scores_read(j.deep_view()),
{
    let fields = match j {
        Some(j) => match j.as_object() {
            Some(fields) => fields,
            None => return None,
        },
        None => return None,
    };
    let mut out: Table<u32> = Table::new();
    let mut i: usize = 0;
    while i < fields.len()
        invariant
            i <= fields.len(),
            j.deep_view() == Some(JsonV::Object(fields.deep_view())),
            scores_read(fields.deep_view(), i as nat) == Some(out.deep_view()),
        decreases fields.len() - i,
    {
        assert(fields.deep_view()[i as int] == fields@[i as int].deep_view());
        let value: Option<u32> = match &fields[i].1 {
            Json::Whole(n) => if *n <= u32::MAX as u64 {
                Some(*n as u32)
            } else {
                None
            },
            _ => None,
        };
        match value {
            Some(value) => {
                let _ = out.insert(fields[i].0.clone(), value);
            },
            None => {
                proof {
                    lemma_scores_refused(fields.deep_view(), (i + 1) as nat, fields@.len());
                }
                return None;
            },
        }
        i += 1;
    }
    Some(out)
}

/// The change a value holds. A record that has none did not move.
pub open spec fn all_delta_read(j: Option<JsonV>) -> Option<Seq<(Text, i64)>> {
    match j {
        None => Some(seq![]),
        Some(JsonV::Object(fields)) => delta_read(fields, fields.len()),
        _ => None,
    }
}

fn read_delta(j: Option<&Json>) -> (r: Option<Table<i64>>)
    ensures
        r.deep_view() == all_delta_read(j.deep_view()),
{
    let fields = match j {
        Some(j) => match j.as_object() {
            Some(fields) => fields,
            None => return None,
        },
        None => return Some(Table::new()),
    };
    let mut out: Table<i64> = Table::new();
    let mut i: usize = 0;
    while i < fields.len()
        invariant
            i <= fields.len(),
            j.deep_view() == Some(JsonV::Object(fields.deep_view())),
            delta_read(fields.deep_view(), i as nat) == Some(out.deep_view()),
        decreases fields.len() - i,
    {
        assert(fields.deep_view()[i as int] == fields@[i as int].deep_view());
        let value: Option<i64> = match &fields[i].1 {
            Json::Minus(n) => Some(*n),
            Json::Whole(n) => if *n <= i64::MAX as u64 {
                Some(*n as i64)
            } else {
                None
            },
            _ => None,
        };
        match value {
            Some(value) => {
                let _ = out.insert(fields[i].0.clone(), value);
            },
            None => {
                proof {
                    lemma_delta_refused(fields.deep_view(), (i + 1) as nat, fields@.len());
                }
                return None;
            },
        }
        i += 1;
    }
    Some(out)
}

/// A commit as a list has it.
pub open spec fn commit_names() -> Seq<Text> {
    seq![
        "sha"@,
        "short"@,
        "subject"@,
        "author"@,
        "date"@,
        "lines"@,
        "scores"@,
        "delta"@,
    ]
}

/// The commit of some fields, when every one it needs is there and of its kind.
pub open spec fn commit_in(fields: Seq<(Text, JsonV)>) -> Option<CommitV> {
    match (
        json::str_of(table::lookup(fields, "sha"@)),
        json::str_of(table::lookup(fields, "short"@)),
        json::str_of(table::lookup(fields, "subject"@)),
        json::str_of(table::lookup(fields, "author"@)),
        json::str_of(table::lookup(fields, "date"@)),
        table::lookup(fields, "lines"@),
        all_scores_read(table::lookup(fields, "scores"@)),
        all_delta_read(table::lookup(fields, "delta"@)),
    ) {
        (
            Some(sha),
            Some(short),
            Some(subject),
            Some(author),
            Some(date),
            Some(JsonV::Whole(lines)),
            Some(scores),
            Some(delta),
        ) => Some(CommitV { sha, short, subject, author, date, lines, scores, delta }),
        _ => None,
    }
}

/// The commit a value is: an object by its fields, or a list by its items.
pub open spec fn commit_read(j: JsonV) -> Option<CommitV> {
    match json::record_of(j, commit_names(), commit_names(), 7) {
        Some(fields) => commit_in(fields),
        None => None,
    }
}

fn read_str(fields: &Vec<(String, Json)>, key: &str) -> (s: Option<String>)
    ensures
        s.deep_view() == json::str_of(table::lookup(fields.deep_view(), key@)),
{
    match json::field(fields, key) {
        Some(Json::Str(s)) => Some(s.clone()),
        _ => None,
    }
}

impl CommitScore {
    /// Reads a commit that was kept.
    pub fn read(j: &Json) -> (c: Option<CommitScore>)
        ensures
            c.deep_view() == commit_read(j.deep_view()),
    {
        let names = json::words(
            &["sha", "short", "subject", "author", "date", "lines", "scores", "delta"],
        );
        assert(names.deep_view() =~= commit_names());
        match j.as_object() {
            Some(fields) => {
                if said::are_once(fields, &names) {
                    return CommitScore::from_fields(fields);
                }
                return None;
            },
            None => {},
        }
        let items = match j.as_list() {
            Some(items) => items,
            None => return None,
        };
        match json::list_fields(items, &names, 7) {
            Some(fields) => CommitScore::from_fields(&fields),
            None => None,
        }
    }

    fn from_fields(fields: &Vec<(String, Json)>) -> (c: Option<CommitScore>)
        ensures
            c.deep_view() == commit_in(fields.deep_view()),
    {
        let lines: u64 = match json::field(fields, "lines") {
            Some(Json::Whole(n)) => *n,
            _ => return None,
        };
        match (
            read_str(fields, "sha"),
            read_str(fields, "short"),
            read_str(fields, "subject"),
            read_str(fields, "author"),
            read_str(fields, "date"),
            read_scores(json::field(fields, "scores")),
            read_delta(json::field(fields, "delta")),
        ) {
            (
                Some(sha),
                Some(short),
                Some(subject),
                Some(author),
                Some(date),
                Some(scores),
                Some(delta),
            ) => Some(CommitScore { sha, short, subject, author, date, lines, scores, delta }),
            _ => None,
        }
    }
}

proof fn lemma_scores_kept(scores: Seq<(Text, u32)>, n: nat)
    requires
        table::ordered(scores),
        n <= scores.len(),
    ensures
        scores_read(score::scores_json(scores)->Object_0, n) == Some(scores.take(n as int)),
    decreases n,
{
    if n == 0 {
        assert(scores.take(0) =~= seq![]);
    } else {
        lemma_scores_kept(scores, (n - 1) as nat);
        let head = scores.take(n - 1);
        assert forall|i: int| 0 <= i < head.len() implies text::less(
            #[trigger] head[i].0,
            scores[n - 1].0,
        ) by {
            assert(text::less(scores[i].0, scores[n - 1].0));
        }
        table::lemma_put_last(head, scores[n - 1].0, scores[n - 1].1);
        assert(scores.take(n as int) =~= head.push(scores[n - 1]));
    }
}

proof fn lemma_delta_kept(delta: Seq<(Text, i64)>, n: nat)
    requires
        table::ordered(delta),
        n <= delta.len(),
    ensures
        delta_read(delta_json(delta)->Object_0, n) == Some(delta.take(n as int)),
    decreases n,
{
    if n == 0 {
        assert(delta.take(0) =~= seq![]);
    } else {
        lemma_delta_kept(delta, (n - 1) as nat);
        let head = delta.take(n - 1);
        assert forall|i: int| 0 <= i < head.len() implies text::less(
            #[trigger] head[i].0,
            delta[n - 1].0,
        ) by {
            assert(text::less(delta[i].0, delta[n - 1].0));
        }
        table::lemma_put_last(head, delta[n - 1].0, delta[n - 1].1);
        assert(delta.take(n as int) =~= head.push(delta[n - 1]));
    }
}

proof fn lemma_names()
    ensures
        "sha"@.len() == 3,
        "short"@.len() == 5 && "short"@[0] == 's',
        "subject"@.len() == 7,
        "author"@.len() == 6 && "author"@[0] == 'a',
        "date"@.len() == 4,
        "lines"@.len() == 5 && "lines"@[0] == 'l',
        "scores"@.len() == 6 && "scores"@[0] == 's',
        "delta"@.len() == 5 && "delta"@[0] == 'd',
{
    reveal_strlit("sha");
    reveal_strlit("short");
    reveal_strlit("subject");
    reveal_strlit("author");
    reveal_strlit("date");
    reveal_strlit("lines");
    reveal_strlit("scores");
    reveal_strlit("delta");
}

/// A commit that is kept is read back as it was, so that one that was scored
/// never has to be scored again.
pub proof fn lemma_commit_kept(c: CommitV)
    requires
        table::ordered(c.scores),
        table::ordered(c.delta),
    ensures
        commit_read(commit_json(c)) == Some(c),
{
    broadcast use table::lemma_lookup_push;

    lemma_names();
    let first = seq![("sha"@, JsonV::Str(c.sha))];
    assert(first.skip(1) =~= seq![]);
    lemma_scores_kept(c.scores, c.scores.len());
    lemma_delta_kept(c.delta, c.delta.len());
    assert(c.scores.take(c.scores.len() as int) =~= c.scores);
    assert(c.delta.take(c.delta.len() as int) =~= c.delta);
    let fields = commit_fields(c);
    assert(table::lookup(fields, "sha"@) == Some(JsonV::Str(c.sha)));
    assert(table::lookup(fields, "short"@) == Some(JsonV::Str(c.short)));
    assert(table::lookup(fields, "subject"@) == Some(JsonV::Str(c.subject)));
    assert(table::lookup(fields, "author"@) == Some(JsonV::Str(c.author)));
    assert(table::lookup(fields, "date"@) == Some(JsonV::Str(c.date)));
    assert(table::lookup(fields, "lines"@) == Some(JsonV::Whole(c.lines)));
    assert(table::lookup(fields, "scores"@) == Some(score::scores_json(c.scores)));
    assert(table::lookup(fields, "delta"@) == Some(delta_json(c.delta)));
}

/// The scores and the lines of a commit that was exported, out of its dataset.
pub open spec fn exported(dataset: JsonV) -> Option<(Seq<(Text, u32)>, u64)> {
    let report = match json::field_of(dataset, "score"@) {
        Some(report) => report,
        None => JsonV::Null,
    };
    match all_scores_read(json::field_of(report, "scores"@)) {
        Some(scores) => Some((scores, json::whole_or(json::field_of(report, "lines"@), 0))),
        None => None,
    }
}

pub fn read_exported(dataset: &Json) -> (r: Option<(Table<u32>, u64)>)
    ensures
        r.deep_view() == exported(dataset.deep_view()),
{
    let none = Json::Null;
    let score = match dataset.get("score") {
        Some(score) => score,
        None => &none,
    };
    match read_scores(score.get("scores")) {
        Some(scores) => Some((scores, score.whole_at("lines", 0))),
        None => None,
    }
}

// --- the index ---------------------------------------------------------------

/// A walk over a repository, whole.
pub struct History {
    pub repo: String,
    /// The branch that was walked.
    pub branch: String,
    /// Where the repository can be seen, if that is known.
    pub remote: Option<String>,
    pub commits_url: Option<String>,
    pub generated: String,
    /// The configuration every commit was scored with. One for the whole walk:
    /// a threshold that somebody edits must not make the line jump.
    pub config: Json,
    pub commits: Vec<CommitScore>,
}

pub struct HistoryV {
    pub repo: Text,
    pub branch: Text,
    pub remote: Option<Text>,
    pub commits_url: Option<Text>,
    pub generated: Text,
    pub config: JsonV,
    pub commits: Seq<CommitV>,
}

impl DeepView for History {
    type V = HistoryV;

    open spec fn deep_view(&self) -> HistoryV {
        HistoryV {
            repo: self.repo@,
            branch: self.branch@,
            remote: self.remote.deep_view(),
            commits_url: self.commits_url.deep_view(),
            generated: self.generated@,
            config: self.config.deep_view(),
            commits: self.commits.deep_view(),
        }
    }
}

pub open spec fn commits_json(commits: Seq<CommitV>) -> JsonV {
    JsonV::List(Seq::new(commits.len(), |i: int| commit_json(commits[i])))
}

fn write_commits(commits: &Vec<CommitScore>) -> (j: Json)
    ensures
        j.deep_view() == commits_json(commits.deep_view()),
{
    let mut items: Vec<Json> = Vec::new();
    let mut i: usize = 0;
    while i < commits.len()
        invariant
            i <= commits.len(),
            items.deep_view() == Seq::new(
                i as nat,
                |k: int| commit_json(commits.deep_view()[k]),
            ),
        decreases commits.len() - i,
    {
        assert(commits.deep_view()[i as int] == commits@[i as int].deep_view());
        text::push(&mut items, commits[i].write());
        assert(items.deep_view() =~= Seq::new(
            (i + 1) as nat,
            |k: int| commit_json(commits.deep_view()[k]),
        ));
        i += 1;
    }
    Json::list(items)
}

/// The fields with a text under a key, where there is one.
pub open spec fn with_known(fields: Seq<(Text, JsonV)>, key: Text, held: Option<Text>) -> Seq<
    (Text, JsonV),
> {
    match held {
        Some(s) => fields.push((key, JsonV::Str(s))),
        None => fields,
    }
}

fn add_known(fields: &mut Vec<(String, Json)>, key: &str, held: &Option<String>)
    ensures
        final(fields).deep_view() == with_known(old(fields).deep_view(), key@, held.deep_view()),
{
    if let Some(s) = held {
        crate::json::add(fields, key, Json::str(s.as_str()));
    }
}

pub open spec fn history_json(h: HistoryV) -> JsonV {
    let fields = seq![("repo"@, JsonV::Str(h.repo))].push(("branch"@, JsonV::Str(h.branch)));
    JsonV::Object(
        with_known(
            with_known(fields, "remote"@, h.remote),
            "commits_url"@,
            h.commits_url,
        ).push(("generated"@, JsonV::Str(h.generated))).push(("config"@, h.config)).push(
            ("commits"@, commits_json(h.commits)),
        ),
    )
}

pub open spec fn known_or_null(s: Option<Text>) -> JsonV {
    match s {
        Some(s) => JsonV::Str(s),
        None => JsonV::Null,
    }
}

/// What an export is found by. Unlike a history it says outright where there is
/// no remote.
pub open spec fn index_json(h: HistoryV) -> JsonV {
    JsonV::Object(
        seq![("repo"@, JsonV::Str(h.repo))].push(("branch"@, JsonV::Str(h.branch))).push(
            ("remote"@, known_or_null(h.remote)),
        ).push(("commits_url"@, known_or_null(h.commits_url))).push(
            ("generated"@, JsonV::Str(h.generated)),
        ).push(("config"@, h.config)).push(("commits"@, commits_json(h.commits))),
    )
}

fn write_known(s: &Option<String>) -> (j: Json)
    ensures
        j.deep_view() == known_or_null(s.deep_view()),
{
    match s {
        Some(s) => Json::str(s.as_str()),
        None => Json::Null,
    }
}

impl History {
    pub fn write(&self) -> (j: Json)
        ensures
            j.deep_view() == history_json(self.deep_view()),
    {
        let mut fields = json::no_fields();
        crate::json::add(&mut fields, "repo", Json::str(self.repo.as_str()));
        crate::json::add(&mut fields, "branch", Json::str(self.branch.as_str()));
        assert(fields.deep_view() =~= seq![("repo"@, JsonV::Str(self.repo@))].push(
            ("branch"@, JsonV::Str(self.branch@)),
        ));
        add_known(&mut fields, "remote", &self.remote);
        add_known(&mut fields, "commits_url", &self.commits_url);
        crate::json::add(&mut fields, "generated", Json::str(self.generated.as_str()));
        crate::json::add(&mut fields, "config", self.config.copy());
        crate::json::add(&mut fields, "commits", write_commits(&self.commits));
        Json::object(fields)
    }

    pub fn write_index(&self) -> (j: Json)
        ensures
            j.deep_view() == index_json(self.deep_view()),
    {
        let mut fields = json::no_fields();
        crate::json::add(&mut fields, "repo", Json::str(self.repo.as_str()));
        crate::json::add(&mut fields, "branch", Json::str(self.branch.as_str()));
        crate::json::add(&mut fields, "remote", write_known(&self.remote));
        crate::json::add(&mut fields, "commits_url", write_known(&self.commits_url));
        crate::json::add(&mut fields, "generated", Json::str(self.generated.as_str()));
        crate::json::add(&mut fields, "config", self.config.copy());
        crate::json::add(&mut fields, "commits", write_commits(&self.commits));
        assert(fields.deep_view() =~= index_json(self.deep_view())->Object_0);
        Json::object(fields)
    }
}

// --- what is kept of a commit ------------------------------------------------

/// A commit is shown with its name, its subject, its author, its date, its lines,
/// its scores and what changed.
#[verifier::rlimit(60)]
pub proof fn lemma_commit_shown(c: CommitV)
    ensures
        ({
            let shown = commit_json(c);
            &&& json::field_of(shown, "sha"@) == Some(JsonV::Str(c.sha))
            &&& json::field_of(shown, "short"@) == Some(JsonV::Str(c.short))
            &&& json::field_of(shown, "subject"@) == Some(JsonV::Str(c.subject))
            &&& json::field_of(shown, "author"@) == Some(JsonV::Str(c.author))
            &&& json::field_of(shown, "date"@) == Some(JsonV::Str(c.date))
            &&& json::field_of(shown, "lines"@) == Some(JsonV::Whole(c.lines))
            &&& json::field_of(shown, "scores"@) matches Some(JsonV::Object(list)) && list.len()
                == c.scores.len() && forall|i: int|
                0 <= i < list.len() ==> #[trigger] list[i] == (
                    c.scores[i].0,
                    JsonV::Whole(c.scores[i].1 as u64),
                )
            &&& json::field_of(shown, "delta"@) == Some(delta_json(c.delta))
        }),
{
    broadcast use table::lemma_lookup_push;

    reveal_strlit("sha");
    reveal_strlit("short");
    reveal_strlit("subject");
    reveal_strlit("author");
    reveal_strlit("date");
    reveal_strlit("lines");
    reveal_strlit("scores");
    reveal_strlit("delta");
    assert("sha"@.len() == 3 && "subject"@.len() == 7 && "date"@.len() == 4);
    assert("short"@[0] == 's' && "lines"@[0] == 'l' && "delta"@[0] == 'd');
    assert("author"@[0] == 'a' && "scores"@[0] == 's' && "short"@.len() == 5);
    let first = seq![("sha"@, JsonV::Str(c.sha))];
    assert(first.skip(1) =~= seq![]);
    assert(table::lookup(first, "sha"@) == Some(JsonV::Str(c.sha)));
    assert(forall|other: Text| other != "sha"@ ==> #[trigger] table::lookup(first, other) is None);
}

/// A walk is shown with its repository, its branch and its commits in their order.
#[verifier::rlimit(60)]
pub proof fn lemma_walk_shown(h: HistoryV)
    ensures
        ({
            let shown = index_json(h);
            &&& json::field_of(shown, "repo"@) == Some(JsonV::Str(h.repo))
            &&& json::field_of(shown, "branch"@) == Some(JsonV::Str(h.branch))
            &&& h.remote matches Some(remote) ==> json::field_of(shown, "remote"@) == Some(
                JsonV::Str(remote),
            )
            &&& json::field_of(shown, "generated"@) == Some(JsonV::Str(h.generated))
            &&& json::field_of(shown, "config"@) == Some(h.config)
            &&& json::field_of(shown, "commits"@) matches Some(JsonV::List(list)) && list.len()
                == h.commits.len() && forall|i: int|
                0 <= i < list.len() ==> #[trigger] list[i] == commit_json(h.commits[i])
        }),
{
    broadcast use table::lemma_lookup_push;

    reveal_strlit("repo");
    reveal_strlit("branch");
    reveal_strlit("remote");
    reveal_strlit("commits_url");
    reveal_strlit("generated");
    reveal_strlit("config");
    reveal_strlit("commits");
    assert("repo"@.len() == 4 && "commits_url"@.len() == 11 && "generated"@.len() == 9);
    assert("branch"@[0] == 'b' && "remote"@[0] == 'r' && "config"@[0] == 'c');
    assert("commits"@.len() == 7 && "branch"@.len() == 6);
    let first = seq![("repo"@, JsonV::Str(h.repo))];
    assert(first.skip(1) =~= seq![]);
    assert(table::lookup(first, "repo"@) == Some(JsonV::Str(h.repo)));
    assert(forall|other: Text| other != "repo"@ ==> #[trigger] table::lookup(first, other) is None);
}

/// A commit's parts are those that `git` gives, in the order they are asked for.
pub proof fn lemma_commit_parts(
    sha: Text,
    short: Text,
    said: Text,
    lines: u64,
    scores: Seq<(Text, u32)>,
    parts: Seq<Text>,
)
    requires
        text::pieces(text::trimmed(said), "\u{1f}"@) == parts,
    ensures
        ({
            let c = commit_of(sha, Some(short), said, lines, scores);
            &&& c.sha == sha && c.short == short && c.lines == lines && c.scores == scores
            &&& parts.len() >= 3 ==> c.subject == parts[0] && c.author == parts[1] && c.date
                == parts[2]
        }),
        ({
            let c = commit_of(sha, None, said, lines, scores);
            parts.len() >= 4 ==> c.short == parts[0] && c.subject == parts[1] && c.author
                == parts[2] && c.date == parts[3]
        }),
{
}


/// A repository is called by its owner and its name, which follow the host.
pub proof fn lemma_slug(scheme: Text, host: Text, owner: Text, name: Text)
    requires
        text::cut(scheme + "://"@ + (host + "/"@ + (owner + "/"@ + name)), "://"@) == Some(
            (scheme, host + "/"@ + (owner + "/"@ + name)),
        ),
        !host.contains('/'),
        !owner.contains('/'),
        !name.contains('/'),
        owner.len() > 0,
        name.len() > 0,
    ensures
        slug_of(scheme + "://"@ + (host + "/"@ + (owner + "/"@ + name))) == Some(
            owner + "/"@ + name,
        ),
{
    text::lemma_pieces_front(name, seq![]);
    text::lemma_pieces_front(owner, name);
    text::lemma_pieces_front(host, owner + "/"@ + name);
    assert(text::pieces(host + "/"@ + (owner + "/"@ + name), "/"@) =~= seq![host, owner, name]);
}

}
