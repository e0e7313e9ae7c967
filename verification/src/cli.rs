//! The arguments of the program, and what they ask for.

use vstd::prelude::*;
use crate::client;
use crate::client::JenkinsClient;
use crate::http;
use crate::text;

verus! {

/// The user name where none is given.
pub const DEFAULT_USER: &'static str = "admin";

/// The token where none is given.
pub const DEFAULT_TOKEN: &'static str = "XXXXX";

/// The Chrome profile where none is given.
pub const DEFAULT_CHROME_PROFILE: &'static str = "Default";

/// Milliseconds between two polls of a log, where nothing else is asked for.
pub const LOGS_POLL_MS: u64 = 1000;

/// Milliseconds between two polls of a sweep, where nothing else is asked for.
pub const SWEEP_POLL_MS: u64 = 2000;

/// The directory for the logs of a sweep, where no other is given.
pub const SWEEP_OUTPUT_DIR: &'static str = "sweep-logs";

/// The directory for the logs of a configuration sweep, where no other is given.
pub const CONFIG_SWEEP_OUTPUT_DIR: &'static str = "config-sweep-logs";

/// Milliseconds between the upload of a configuration and the build, where nothing else is
/// asked for.
pub const POST_CONFIG_DELAY_MS: u64 = 3000;

/// `rj`, a command line client for the Jenkins REST API.
#[derive(Debug)]
pub struct Cli {
    /// The base address of the server, as in `http://jenkins.example.com:8080`.
    pub url: Option<String>,
    pub user: String,
    /// An API token or a password.
    pub token: String,
    /// Take the session cookie from the default Firefox profile.
    pub from_firefox: bool,
    /// Take the session cookie from a Chrome profile.
    pub from_chrome: bool,
    /// The directory name of the Chrome profile.
    pub chrome_profile: String,
    /// A session cookie in the form `name=value`.
    pub cookie: Option<String>,
    /// Print the names of the cookies that the browser holds for the server, and nothing else.
    pub list_cookies: bool,
    pub command: Option<Command>,
}

#[derive(Debug)]
pub enum Command {
    /// Show a job's parameters and recent build status.
    Inspect(InspectArgs),
    /// Trigger a build, with or without parameters.
    Build(BuildArgs),
    /// Stream the console log of the latest or of a given build.
    Logs(LogsArgs),
    /// Get, set or sweep a job's XML configuration.
    Config(ConfigArgs),
    /// Run a job repeatedly, with another value for one parameter each time.
    Sweep(SweepArgs),
    /// List the jobs and folders of a folder or of the root.
    List(ListArgs),
    /// Read or set XML tags across several jobs.
    Tag(TagArgs),
}

#[derive(Debug)]
pub struct InspectArgs {
    pub job: String,
}

#[derive(Debug)]
pub struct BuildArgs {
    pub job: String,
    /// Build parameters in the form `KEY=VALUE`.
    pub params: Vec<String>,
}

#[derive(Debug)]
pub struct LogsArgs {
    pub job: String,
    /// The build to stream; the latest if none is given.
    pub build: Option<u64>,
    /// Milliseconds between two polls.
    pub poll_ms: u64,
}

#[derive(Debug)]
pub struct ConfigArgs {
    pub action: ConfigAction,
}

#[derive(Debug)]
pub enum ConfigAction {
    /// Download configurations, to print or to save them.
    Get(ConfigGetArgs),
    /// Upload a local file as a job's configuration.
    Upload(ConfigSetArgs),
    /// Build a job once for each value of an XML tag.
    Sweep(ConfigSweepArgs),
}

#[derive(Debug)]
pub struct ConfigGetArgs {
    pub target: JobTarget,
    /// The directory to save configurations in, one file for each job, named after its path.
    /// Without it they are printed.
    pub output_dir: Option<String>,
}

#[derive(Debug)]
pub struct ConfigSetArgs {
    pub job: String,
    /// The local file to upload.
    pub file: String,
}

#[derive(Debug)]
pub struct SweepArgs {
    pub job: String,
    /// The parameter that varies.
    pub param_name: String,
    /// Its values: one build for each.
    pub values: Vec<String>,
    /// Parameters in the form `KEY=VALUE` that every build gets.
    pub params: Vec<String>,
    /// The directory that logs are saved in.
    pub output_dir: String,
    /// Milliseconds between two polls.
    pub poll_ms: u64,
}

#[derive(Debug)]
pub struct ListArgs {
    /// The folder to list; the root if there is none.
    pub path: Option<String>,
}

#[derive(Debug)]
pub struct ConfigSweepArgs {
    pub job: String,
    /// The path of the XML tag that varies.
    pub xml_tag: String,
    /// Its values: one build for each.
    pub values: Vec<String>,
    /// The directory that logs are saved in.
    pub output_dir: String,
    /// Milliseconds between two polls.
    pub poll_ms: u64,
    /// The branch of the pipeline to build in place of the job itself.
    pub branch: Option<String>,
    /// Do not scan the pipeline before a branch is built.
    pub skip_scan: bool,
    /// Milliseconds between the upload of a configuration and the build.
    pub post_config_delay_ms: u64,
    /// Leave the last configuration in place.
    pub no_restore: bool,
}

#[derive(Debug)]
pub struct TagArgs {
    pub action: TagAction,
}

#[derive(Debug)]
pub enum TagAction {
    /// Read tags of several jobs.
    List(ListTagArgs),
    /// Set tags of several jobs.
    Patch(PatchTagArgs),
}

/// The jobs that a command is about.
#[derive(Debug)]
pub struct JobTarget {
    /// Folders: every job directly in one of them is meant.
    pub paths: Vec<String>,
    /// Single jobs.
    pub job_names: Vec<String>,
    /// Go down into the folders of a folder as well.
    pub recursive: bool,
}

#[derive(Debug)]
pub struct ListTagArgs {
    pub target: JobTarget,
    /// The paths of the XML tags to read.
    pub xml_tags: Vec<String>,
}

#[derive(Debug)]
pub struct PatchTagArgs {
    pub target: JobTarget,
    /// The paths of the XML tags to set.
    pub xml_tags: Vec<String>,
    /// A value for each of them.
    pub values: Vec<String>,
    /// Print the old values as well.
    pub show_old: bool,
}

// ---------------------------------------------------------------------------
// What the global flags ask for
// ---------------------------------------------------------------------------

#[derive(Debug, Clone, Copy, PartialEq, Eq, Structural)]
pub enum Browser {
    Chrome,
    Firefox,
}

/// Where the credentials come from.
#[derive(Debug)]
pub enum Credentials {
    /// The cookie that was given.
    Cookie(String),
    /// The session cookies that a browser holds.
    Session(Browser),
    /// The user name and the token.
    Token,
}

/// What the global flags ask for.
#[derive(Debug)]
pub enum Plan {
    /// Print the names of the cookies that a browser holds for this address.
    ListCookies(Browser, String),
    /// Run the command against the server at this address.
    Run(Credentials, String),
}

/// The arguments name no server.
#[derive(Debug)]
pub struct MissingUrl;

/// What a [`Credentials`] stands for.
pub enum CredentialsModel {
    Cookie(Seq<char>),
    Session(Browser),
    Token,
}

/// What a [`Plan`] stands for.
pub enum PlanModel {
    ListCookies(Browser, Seq<char>),
    Run(CredentialsModel, Seq<char>),
}

impl View for Credentials {
    type V = CredentialsModel;

    open spec fn view(&self) -> CredentialsModel {
        match *self {
            Credentials::Cookie(c) => CredentialsModel::Cookie(c@),
            Credentials::Session(b) => CredentialsModel::Session(b),
            Credentials::Token => CredentialsModel::Token,
        }
    }
}

impl View for Plan {
    type V = PlanModel;

    open spec fn view(&self) -> PlanModel {
        match *self {
            Plan::ListCookies(b, url) => PlanModel::ListCookies(b, url@),
            Plan::Run(c, url) => PlanModel::Run(c@, url@),
        }
    }
}

/// The credentials that win: a cookie that was given, then Chrome, then Firefox, then the
/// user name and the token.
pub open spec fn winning_credentials(cookie: Option<Seq<char>>, from_chrome: bool, from_firefox: bool) -> CredentialsModel {
    match cookie {
        Some(c) => CredentialsModel::Cookie(c),
        None => if from_chrome {
            CredentialsModel::Session(Browser::Chrome)
        } else if from_firefox {
            CredentialsModel::Session(Browser::Firefox)
        } else {
            CredentialsModel::Token
        },
    }
}

/// What the global flags ask for; `None` if they name no server.
pub open spec fn planned(cli: Cli) -> Option<PlanModel> {
    match text::option_view(cli.url) {
        Some(url) => if url.len() == 0 {
            None
        } else if cli.list_cookies {
            Some(PlanModel::ListCookies(if cli.from_chrome { Browser::Chrome } else { Browser::Firefox }, url))
        } else {
            Some(
                PlanModel::Run(
                    winning_credentials(text::option_view(cli.cookie), cli.from_chrome, cli.from_firefox),
                    url,
                ),
            )
        },
        None => None,
    }
}

impl Cli {
    /// What the global flags ask for.
    pub fn plan(&self) -> (r: Result<Plan, MissingUrl>)
        ensures
            match r {
                Ok(plan) => planned(*self) == Some(plan@),
                Err(_) => planned(*self) is None,
            },
    {
        let url = match &self.url {
            Some(url) => url.clone(),
            None => return Err(MissingUrl),
        };
        if url.as_str().is_empty() {
            return Err(MissingUrl);
        }
        if self.list_cookies {
            let browser = if self.from_chrome {
                Browser::Chrome
            } else {
                Browser::Firefox
            };
            return Ok(Plan::ListCookies(browser, url));
        }
        let credentials = match &self.cookie {
            Some(cookie) => Credentials::Cookie(cookie.clone()),
            None => if self.from_chrome {
                Credentials::Session(Browser::Chrome)
            } else if self.from_firefox {
                Credentials::Session(Browser::Firefox)
            } else {
                Credentials::Token
            },
        };
        Ok(Plan::Run(credentials, url))
    }

    /// The client for a server. `session` is the cookie to authenticate with, if there is
    /// one: the user name and the token are then not used.
    pub fn client(&self, url: &str, session: Option<String>) -> (r: JenkinsClient)
        ensures
            r@ == (client::ClientModel {
                base_url: text::without_trailing(url@, '/'),
                auth: match text::option_view(session) {
                    Some(cookie) => http::AuthModel::Cookie(cookie),
                    None => http::AuthModel::Basic(self.user@, self.token@),
                },
                crumb: None,
            }),
    {
        match session {
            Some(cookie) => JenkinsClient::new_with_cookie(url, cookie.as_str()),
            None => JenkinsClient::new(url, self.user.as_str(), self.token.as_str()),
        }
    }
}

impl MissingUrl {
    /// The error in words.
    pub fn message(&self) -> (r: String)
        ensures
            r@
                == "Jenkins URL is required. Set the JENKINS_URL environment variable or pass --url <URL>."@,
    {
        "Jenkins URL is required. Set the JENKINS_URL environment variable or pass --url <URL>.".to_owned()
    }
}

impl Browser {
    pub open spec fn word(self) -> Seq<char> {
        match self {
            Browser::Chrome => "chrome"@,
            Browser::Firefox => "firefox"@,
        }
    }

    /// The name that the flags know the browser by.
    pub fn name(&self) -> (r: String)
        ensures
            r@ == self.word(),
    {
        match self {
            Browser::Chrome => "chrome".to_owned(),
            Browser::Firefox => "firefox".to_owned(),
        }
    }
}

/// Each source of credentials wins over those below it, whatever the other flags are: a
/// cookie, Chrome, Firefox, and the token where there is nothing else.
pub proof fn law_credentials_precedence(cookie: Option<Seq<char>>, from_chrome: bool, from_firefox: bool)
    ensures
        cookie matches Some(c) ==> winning_credentials(cookie, from_chrome, from_firefox) == CredentialsModel::Cookie(c),
        cookie is None ==> winning_credentials(cookie, true, from_firefox) == CredentialsModel::Session(Browser::Chrome),
        cookie is None && !from_chrome ==> winning_credentials(cookie, from_chrome, true) == CredentialsModel::Session(
            Browser::Firefox,
        ),
        winning_credentials(cookie, from_chrome, from_firefox) == CredentialsModel::Token <==> cookie is None
            && !from_chrome && !from_firefox,
{
}

/// Without an address, or with an empty one, nothing is done; with one, what is done concerns
/// that address.
pub proof fn law_plan_needs_an_address(cli: Cli)
    ensures
        planned(cli) is None <==> cli.url is None || cli.url->0@.len() == 0,
        planned(cli) matches Some(PlanModel::ListCookies(_, url)) ==> cli.url->0@ == url,
        planned(cli) matches Some(PlanModel::Run(_, url)) ==> cli.url->0@ == url,
{
}

/// Where the cookies are to be listed, they are, and no command is run, whatever credentials are
/// given: those of Chrome where it is asked for, and otherwise those of Firefox.
pub proof fn law_cookies_are_listed_on_demand(cli: Cli)
    requires
        planned(cli) is Some,
    ensures
        planned(cli)->0 is ListCookies <==> cli.list_cookies,
        planned(cli) matches Some(PlanModel::ListCookies(browser, _)) ==> (browser == Browser::Chrome
            <==> cli.from_chrome),
        planned(cli) matches Some(PlanModel::Run(credentials, _)) ==> {
            &&& cli.cookie matches Some(c) ==> credentials == CredentialsModel::Cookie(c@)
            &&& cli.cookie is None && cli.from_chrome ==> credentials == CredentialsModel::Session(Browser::Chrome)
            &&& cli.cookie is None && !cli.from_chrome && cli.from_firefox ==> credentials
                == CredentialsModel::Session(Browser::Firefox)
            &&& credentials is Token <==> cli.cookie is None && !cli.from_chrome && !cli.from_firefox
        },
{
}

/// The browsers have names of their own.
pub proof fn law_browser_words(a: Browser, b: Browser)
    ensures
        a.word() == b.word() ==> a == b,
{
    reveal_strlit("chrome");
    reveal_strlit("firefox");
    assert("chrome"@.len() == 6 && "firefox"@.len() == 7);
}

} // verus!
