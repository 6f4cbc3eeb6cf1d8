//! Access to GitHub through the `gh` command: what is asked of it and what its
//! answers mean. Running the command is left to the caller.
use vstd::prelude::*;
use vstd::string::*;

use crate::text::{cat2, cat4, cat5, dec, decimal, join, joined, trim, trimmed, views};
use crate::types::{GithubUserSummary, RateLimit};

verus! {

/// Why GitHub gave no answer.
#[derive(Debug, Clone)]
pub enum GithubError {
    /// The command failed.
    Command(String),
    /// Nobody is logged in.
    NoToken,
    /// The answer is not what was expected.
    Json(String),
}

pub enum GithubErrorModel {
    Command(Seq<char>),
    NoToken,
    Json(Seq<char>),
}

impl View for GithubError {
    type V = GithubErrorModel;

    open spec fn view(&self) -> GithubErrorModel {
        match *self {
            GithubError::Command(m) => GithubErrorModel::Command(m@),
            GithubError::NoToken => GithubErrorModel::NoToken,
            GithubError::Json(m) => GithubErrorModel::Json(m@),
        }
    }
}

/// An error in words.
pub open spec fn github_message(e: GithubErrorModel) -> Seq<char> {
    match e {
        GithubErrorModel::Command(m) => "gh command failed: "@ + m,
        GithubErrorModel::NoToken => "no GitHub token found; run `gh auth login`"@,
        GithubErrorModel::Json(m) => "JSON parse error: "@ + m,
    }
}

impl GithubError {
    /// The error in words.
    pub fn message(&self) -> (s: String)
        ensures
            s@ == github_message(self@),
    {
        match self {
            GithubError::Command(m) => cat2("gh command failed: ", m.as_str()),
            GithubError::NoToken => "no GitHub token found; run `gh auth login`".to_owned(),
            GithubError::Json(m) => cat2("JSON parse error: ", m.as_str()),
        }
    }
}

/// Where the full profile of a user is.
pub fn user_path(login: &str) -> (r: String)
    ensures
        r@ == "/users/"@ + login@,
{
    cat2("/users/", login)
}

/// Where a page of a list of users around a user is.
pub open spec fn page_path(login: Seq<char>, list: Seq<char>, page: nat) -> Seq<char> {
    "/users/"@ + login + "/"@ + list + "?page="@ + decimal(page) + "&per_page=100"@
}

/// What the command has printed, where it was run with the given arguments: its
/// output, or its complaints where it failed.
pub fn command_output(args: &Vec<String>, success: bool, stdout: String, stderr: &str) -> (r: Result<
    String,
    GithubError,
>)
    ensures
        match r {
            Ok(s) => success && s@ == stdout@,
            Err(e) => !success && e@ == GithubErrorModel::Command(
                "gh api "@ + joined(views(args@), " "@) + ": "@ + trimmed(stderr@),
            ),
        },
{
    if success {
        Ok(stdout)
    } else {
        Err(
            GithubError::Command(
                cat4(
                    "gh api ",
                    join(args.as_slice(), " ").as_str(),
                    ": ",
                    trim(stderr).as_str(),
                ),
            ),
        )
    }
}

/// A client of GitHub.
pub type GithubClient = GhClient;

/// A client of GitHub that remembers how many requests are left.
#[derive(Debug, Clone, Copy)]
pub struct GhClient {
    rate_limit: RateLimit,
}

impl GhClient {
    /// How many requests are left, as far as is known.
    pub closed spec fn limit(self) -> RateLimit {
        self.rate_limit
    }

    /// A client, where the `gh` command is there and somebody is logged in.
    pub fn new(authenticated: bool) -> (r: Result<GhClient, GithubError>)
        ensures
            match r {
                Ok(c) => authenticated && c.limit() == (RateLimit {
                    limit: 5000,
                    remaining: 5000,
                    reset_at: 0,
                }),
                Err(e) => !authenticated && e is NoToken,
            },
    {
        if authenticated {
            Ok(GhClient { rate_limit: RateLimit { limit: 5000, remaining: 5000, reset_at: 0 } })
        } else {
            Err(GithubError::NoToken)
        }
    }

    /// Takes note of how many requests are left; without news nothing changes.
    pub fn refresh_rate_limit(&mut self, news: Option<RateLimit>)
        ensures
            final(self).limit() == (match news {
                Some(rl) => rl,
                None => old(self).limit(),
            }),
    {
        if let Some(rl) = news {
            self.rate_limit = rl;
        }
    }

    /// How many requests are left, as far as is known.
    pub fn rate_limit(&self) -> (r: RateLimit)
        ensures
            r == self.limit(),
    {
        self.rate_limit
    }
}

/// What to do next to read a list page by page.
#[derive(Debug, Clone)]
pub enum PageStep {
    /// Fetch what is at this path.
    Fetch(String),
    /// The list is complete.
    Finished,
    /// The reading was broken off.
    Aborted,
}

/// A list of users around a user that is being read page by page, up to the
/// first empty page.
pub struct Pages {
    login: String,
    list: String,
    users: Vec<GithubUserSummary>,
    page: u32,
    finished: bool,
}

pub struct PagesModel {
    pub login: Seq<char>,
    pub list: Seq<char>,
    /// What has been read.
    pub users: Seq<GithubUserSummary>,
    /// The page to read next.
    pub page: nat,
    pub finished: bool,
}

impl View for Pages {
    type V = PagesModel;

    closed spec fn view(&self) -> PagesModel {
        PagesModel {
            login: self.login@,
            list: self.list@,
            users: self.users@,
            page: self.page as nat,
            finished: self.finished,
        }
    }
}

impl PagesModel {
    /// Nothing is read yet.
    pub open spec fn start(login: Seq<char>, list: Seq<char>) -> PagesModel {
        PagesModel { login, list, users: Seq::empty(), page: 1, finished: false }
    }

    /// One more page is read. An empty one is the last.
    pub open spec fn after(self, batch: Seq<GithubUserSummary>) -> PagesModel {
        if batch.len() == 0 {
            PagesModel { finished: true, ..self }
        } else {
            PagesModel { users: self.users + batch, page: self.page + 1, ..self }
        }
    }

    /// More pages are read.
    pub open spec fn after_all(self, batches: Seq<Seq<GithubUserSummary>>) -> PagesModel
        decreases batches.len(),
    {
        if batches.len() == 0 {
            self
        } else {
            self.after_all(batches.drop_last()).after(batches.last())
        }
    }
}

/// A page holds a hundred users and is asked for by the login, the list and its number.
pub proof fn law_page_address(login: Seq<char>, page: nat)
    ensures
        page_path(login, "following"@, page) == "/users/"@ + login + "/"@ + "following"@ + "?page="@
            + decimal(page) + "&per_page=100"@,
        page_path(login, "followers"@, page) == "/users/"@ + login + "/"@ + "followers"@ + "?page="@
            + decimal(page) + "&per_page=100"@,
{
}

/// A page that holds somebody, however few, adds them behind those that were read and
/// leads to the next page; an empty one adds nobody and ends the list.
pub proof fn law_page_adds_its_users(p: PagesModel, batch: Seq<GithubUserSummary>)
    ensures
        p.after(batch).users == p.users + batch,
        p.after(batch).login == p.login && p.after(batch).list == p.list,
        batch.len() > 0 ==> p.after(batch).page == p.page + 1 && p.after(batch).finished
            == p.finished,
        batch.len() == 0 ==> p.after(batch).page == p.page && p.after(batch).finished,
{
    if batch.len() == 0 {
        assert(p.users + batch =~= p.users);
    }
}

/// An error is told with what it is about.
pub proof fn law_github_errors_are_told(words: Seq<char>, e: GithubError)
    ensures
        github_message(GithubErrorModel::Command(words)) == "gh command failed: "@ + words,
        github_message(GithubErrorModel::Json(words)) == "JSON parse error: "@ + words,
        github_message(GithubErrorModel::NoToken) == "no GitHub token found; run `gh auth login`"@,
        match e {
            GithubError::Command(m) => e@ == GithubErrorModel::Command(m@),
            GithubError::NoToken => e@ is NoToken,
            GithubError::Json(m) => e@ == GithubErrorModel::Json(m@),
        },
{
}

/// A list that takes `n` pages is read from the first to the `n`th page, each
/// once, and the empty page behind them ends it with all of their users in order.
pub proof fn law_pages_are_read_in_order(
    login: Seq<char>,
    list: Seq<char>,
    batches: Seq<Seq<GithubUserSummary>>,
)
    requires
        forall|i: int| 0 <= i < batches.len() ==> (#[trigger] batches[i]).len() > 0,
    ensures
        ({
            let p = PagesModel::start(login, list).after_all(batches);
            &&& !p.finished
            &&& p.page == batches.len() + 1
            &&& p.users == batches.flatten()
            &&& p.after(Seq::empty()).finished
            &&& p.after(Seq::empty()).users == batches.flatten()
        }),
    decreases batches.len(),
{
    if batches.len() == 0 {
        assert(batches.flatten() =~= Seq::empty());
    } else {
        let rest = batches.drop_last();
        assert forall|i: int| 0 <= i < rest.len() implies (#[trigger] rest[i]).len() > 0 by {
            assert(rest[i] == batches[i]);
        }
        law_pages_are_read_in_order(login, list, rest);
        assert(batches[batches.len() - 1].len() > 0);
        batches.lemma_flatten_and_flatten_alt_are_equivalent();
        rest.lemma_flatten_and_flatten_alt_are_equivalent();
        assert(batches.flatten_alt() == rest.flatten_alt() + batches.last());
    }
}

impl Pages {
    /// The users that a user follows, nothing of them read yet.
    pub fn following(login: &str) -> (r: Pages)
        ensures
            r@ == PagesModel::start(login@, "following"@),
    {
        let r = Pages {
            login: login.to_owned(),
            list: "following".to_owned(),
            users: Vec::new(),
            page: 1,
            finished: false,
        };
        assert(r@.users =~= Seq::empty());
        r
    }

    /// The users that follow a user, nothing of them read yet.
    pub fn followers(login: &str) -> (r: Pages)
        ensures
            r@ == PagesModel::start(login@, "followers"@),
    {
        let r = Pages {
            login: login.to_owned(),
            list: "followers".to_owned(),
            users: Vec::new(),
            page: 1,
            finished: false,
        };
        assert(r@.users =~= Seq::empty());
        r
    }

    /// The page to read next.
    pub fn page(&self) -> (r: u32)
        ensures
            r == self@.page,
    {
        self.page
    }

    /// What to do next, where the reading is to be broken off or not.
    pub fn next(&self, abort: bool) -> (r: PageStep)
        ensures
            match r {
                PageStep::Finished => self@.finished,
                PageStep::Aborted => !self@.finished && abort,
                PageStep::Fetch(path) => !self@.finished && !abort && path@ == page_path(
                    self@.login,
                    self@.list,
                    self@.page,
                ),
            },
    {
        if self.finished {
            return PageStep::Finished;
        }
        if abort {
            return PageStep::Aborted;
        }
        let mut path = cat5("/users/", self.login.as_str(), "/", self.list.as_str(), "?page=");
        path.append(dec(self.page as u64).as_str());
        path.append("&per_page=100");
        PageStep::Fetch(path)
    }

    /// Takes in the page that was fetched. An empty one is the last.
    pub fn add_page(&mut self, batch: Vec<GithubUserSummary>)
        requires
            old(self)@.page < u32::MAX,
        ensures
            final(self)@ == old(self)@.after(batch@),
    {
        let mut batch: Vec<GithubUserSummary> = batch;
        if batch.len() == 0 {
            self.finished = true;
        } else {
            self.users.append(&mut batch);
            self.page = self.page + 1;
        }
    }

    /// What has been read.
    pub fn into_users(self) -> (r: Vec<GithubUserSummary>)
        ensures
            r@ == self@.users,
    {
        self.users
    }
}

} // verus!
