//! How Beam starts: what its arguments ask for, where it is reached, and how it restarts.

use vstd::prelude::*;
use vstd::string::*;

use crate::text::{contains, same, texts};

verus! {

/// The port that Beam listens on.
pub const PORT: u16 = 9470;

/// The argument that makes a process wait for the port before it becomes Beam.
pub const RESTART_CHILD: &'static str = "--beam-restart-child";

/// The argument that makes Beam try whether it can replace itself.
pub const TEST_RESTART: &'static str = "--beam-self-test-restart";

/// The argument under which Beam finds itself replaced in that trial.
pub const TEST_RESTARTED: &'static str = "--beam-self-test-restarted";

/// The argument that makes Beam try whether it can be started again from behind.
pub const TEST_WATCHER: &'static str = "--beam-self-test-watcher";

/// The argument under which Beam finds itself started in that trial.
pub const TEST_WATCHER_RESTARTED: &'static str = "--beam-self-test-watcher-restarted";

/// How often the port is tried while another process holds it, in milliseconds.
pub const PORT_POLL_MILLIS: u64 = 50;

/// What a process is to do.
#[derive(Clone, Copy, Debug, PartialEq, Eq, Structural)]
pub enum StartupMode {
    /// Wait until the port is free, then become Beam with the arguments behind the first.
    ReplaceWhenFree,
    /// Report that the trial of a replacement passed.
    ReportRestarted,
    /// Report that the trial of a restart from behind passed.
    ReportWatcherRestarted,
    /// Start the process that restarts Beam, and end.
    StartWatcher,
    /// Become Beam again, as after a replacement.
    Restart,
    /// Serve.
    Serve,
}

/// What the arguments ask for. The first of several wins.
pub open spec fn mode_of(arguments: Seq<Seq<char>>) -> StartupMode {
    if arguments.len() > 0 && arguments[0] == RESTART_CHILD@ {
        StartupMode::ReplaceWhenFree
    } else if arguments.contains(TEST_RESTARTED@) {
        StartupMode::ReportRestarted
    } else if arguments.contains(TEST_WATCHER_RESTARTED@) {
        StartupMode::ReportWatcherRestarted
    } else if arguments.contains(TEST_WATCHER@) {
        StartupMode::StartWatcher
    } else if arguments.contains(TEST_RESTART@) {
        StartupMode::Restart
    } else {
        StartupMode::Serve
    }
}

/// What the arguments, without the name of the program, ask for.
pub fn startup_mode(arguments: &Vec<String>) -> (mode: StartupMode)
    ensures
        mode == mode_of(texts(arguments@)),
{
    assert(arguments@.len() > 0 ==> texts(arguments@)[0] == arguments@[0]@);
    if arguments.len() > 0 && same(arguments[0].as_str(), RESTART_CHILD) {
        StartupMode::ReplaceWhenFree
    } else if contains(arguments, TEST_RESTARTED) {
        StartupMode::ReportRestarted
    } else if contains(arguments, TEST_WATCHER_RESTARTED) {
        StartupMode::ReportWatcherRestarted
    } else if contains(arguments, TEST_WATCHER) {
        StartupMode::StartWatcher
    } else if contains(arguments, TEST_RESTART) {
        StartupMode::Restart
    } else {
        StartupMode::Serve
    }
}

/// The arguments of the process that restarts Beam: it is told so, and what Beam was told; in
/// the trial of such a restart also what the new Beam is to report.
pub open spec fn watcher_arguments_of(arguments: Seq<Seq<char>>) -> Seq<Seq<char>> {
    seq![RESTART_CHILD@] + arguments + if arguments.contains(TEST_WATCHER@) {
        seq![TEST_WATCHER_RESTARTED@]
    } else {
        Seq::empty()
    }
}

/// Copies strings behind those of a list.
fn append_all(list: &mut Vec<String>, more: &Vec<String>)
    ensures
        texts(final(list)@) == texts(old(list)@) + texts(more@),
{
    let mut i: usize = 0;
    assert(texts(list@) =~= texts(old(list)@) + texts(more@).take(0));
    while i < more.len()
        invariant
            i <= more@.len(),
            texts(list@) == texts(old(list)@) + texts(more@).take(i as int),
        decreases more@.len() - i,
    {
        let ghost before = list@;
        let text: String = more[i].clone();
        list.push(text);
        assert(texts(list@) =~= texts(before).push(text@));
        assert(texts(more@).take(i + 1) =~= texts(more@).take(i as int).push(more@[i as int]@));
        i += 1;
        assert(texts(list@) =~= texts(old(list)@) + texts(more@).take(i as int));
    }
    assert(texts(more@).take(i as int) =~= texts(more@));
}

/// The arguments of the process that restarts Beam, which itself was given `arguments`.
pub fn watcher_arguments(arguments: &Vec<String>) -> (list: Vec<String>)
    ensures
        texts(list@) == watcher_arguments_of(texts(arguments@)),
{
    let mut list: Vec<String> = Vec::new();
    list.push(RESTART_CHILD.to_owned());
    assert(texts(list@) =~= seq![RESTART_CHILD@]);
    append_all(&mut list, arguments);
    let ghost so_far = list@;
    if contains(arguments, TEST_WATCHER) {
        list.push(TEST_WATCHER_RESTARTED.to_owned());
        assert(texts(list@) =~= texts(so_far).push(TEST_WATCHER_RESTARTED@));
    }
    assert(texts(list@) =~= watcher_arguments_of(texts(arguments@)));
    list
}

/// The arguments under which Beam replaces itself in the trial of a replacement.
pub fn restart_arguments(arguments: &Vec<String>) -> (list: Vec<String>)
    ensures
        texts(list@) == texts(arguments@).push(TEST_RESTARTED@),
{
    let mut list: Vec<String> = Vec::new();
    assert(texts(list@) =~= Seq::empty());
    append_all(&mut list, arguments);
    let ghost so_far = list@;
    list.push(TEST_RESTARTED.to_owned());
    assert(texts(list@) =~= texts(so_far).push(TEST_RESTARTED@));
    assert(texts(list@) =~= texts(arguments@).push(TEST_RESTARTED@));
    list
}

/// A restart comes back to where it started: the process that is started for it waits for the
/// port, and becomes a Beam that serves, with the arguments that the first one had.
pub proof fn law_restart_serves_again(arguments: Seq<Seq<char>>)
    requires
        mode_of(arguments) == StartupMode::Serve,
    ensures
        mode_of(watcher_arguments_of(arguments)) == StartupMode::ReplaceWhenFree,
        watcher_arguments_of(arguments).skip(1) == arguments,
        mode_of(watcher_arguments_of(arguments).skip(1)) == StartupMode::Serve,
{
    assert(watcher_arguments_of(arguments).skip(1) =~= arguments);
}

proof fn lemma_modes_differ()
    ensures
        TEST_RESTARTED@ != TEST_WATCHER_RESTARTED@,
        TEST_WATCHER_RESTARTED@ != RESTART_CHILD@,
        TEST_RESTARTED@ != RESTART_CHILD@,
{
    reveal_strlit("--beam-restart-child");
    reveal_strlit("--beam-self-test-restarted");
    reveal_strlit("--beam-self-test-watcher-restarted");
    assert(RESTART_CHILD@.len() < TEST_RESTARTED@.len() < TEST_WATCHER_RESTARTED@.len());
}

/// Both trials end: the Beam that is started in a trial reports that it passed.
pub proof fn law_trials_end(arguments: Seq<Seq<char>>)
    ensures
        mode_of(arguments) == StartupMode::StartWatcher ==> {
            &&& mode_of(watcher_arguments_of(arguments)) == StartupMode::ReplaceWhenFree
            &&& mode_of(watcher_arguments_of(arguments).skip(1))
                == StartupMode::ReportWatcherRestarted
        },
        mode_of(arguments) == StartupMode::Restart ==> mode_of(arguments.push(TEST_RESTARTED@))
            == StartupMode::ReportRestarted,
{
    lemma_modes_differ();
    if mode_of(arguments) == StartupMode::StartWatcher {
        let rest = watcher_arguments_of(arguments).skip(1);
        assert(rest =~= arguments.push(TEST_WATCHER_RESTARTED@));
        assert(rest[rest.len() - 1] == TEST_WATCHER_RESTARTED@);
        assert forall|i: int| 0 <= i < rest.len() implies rest[i] != TEST_RESTARTED@ by {
            if i < arguments.len() {
                assert(rest[i] == arguments[i]);
            }
        }
        assert(arguments.len() > 0 && rest[0] == arguments[0]);
    }
    if mode_of(arguments) == StartupMode::Restart {
        let next = arguments.push(TEST_RESTARTED@);
        assert(next[next.len() - 1] == TEST_RESTARTED@);
        assert(arguments.len() > 0 && next[0] == arguments[0]);
    }
}

/// Where the settings are, for the one who knows the token.
pub fn settings_url(admin_token: &str) -> (url: String)
    ensures
        url@ == "https://127.0.0.1:9470/settings#"@ + admin_token@,
{
    let mut url: String = "https://127.0.0.1:9470/settings#".to_owned();
    url.append(admin_token);
    url
}

/// The settings page that is opened when Beam starts, in plain HTTP, as the browser may not trust
/// the certificate yet.
pub fn launch_url(admin_token: &str) -> (url: String)
    ensures
        url@ == "http://127.0.0.1:9470/settings#"@ + admin_token@,
{
    let mut url: String = "http://127.0.0.1:9470/settings#".to_owned();
    url.append(admin_token);
    url
}

/// Where viewers find Beam, on the machine with the given address.
pub fn network_address(ip: &str) -> (address: String)
    ensures
        address@ == "http://"@ + ip@ + ":9470"@,
{
    let mut address: String = "http://".to_owned();
    address.append(ip);
    address.append(":9470");
    address
}

/// What plain HTTP is answered with.
#[derive(Clone, Copy, Debug, PartialEq, Eq, Structural)]
pub enum PlainService {
    /// The settings, until they have been opened once.
    Setup,
    /// The page that sends the browser on to HTTPS.
    Welcome,
}

pub fn plain_service(settings_opened: bool) -> (service: PlainService)
    ensures
        service == if settings_opened {
            PlainService::Welcome
        } else {
            PlainService::Setup
        },
{
    if settings_opened {
        PlainService::Welcome
    } else {
        PlainService::Setup
    }
}

/// Where a file that belongs to Beam lies.
#[derive(Clone, Copy, Debug, PartialEq, Eq, Structural)]
pub enum ResourceLocation {
    /// At its path under the working directory.
    WorkingDirectory,
    /// In the application bundle that holds the program.
    Bundle,
}

/// Where a file lies, by whether it is under the working directory and whether the program is
/// known to be in a bundle.
pub fn resource_location(in_working_directory: bool, bundle_known: bool) -> (location:
    ResourceLocation)
    ensures
        location == if !in_working_directory && bundle_known {
            ResourceLocation::Bundle
        } else {
            ResourceLocation::WorkingDirectory
        },
{
    if in_working_directory {
        ResourceLocation::WorkingDirectory
    } else if bundle_known {
        ResourceLocation::Bundle
    } else {
        ResourceLocation::WorkingDirectory
    }
}

/// What each argument asks for: to wait for the port where it stands first, and then, wherever it
/// stands, to report a trial that passed, or to begin one. Without any of these Beam serves.
pub proof fn law_arguments_are_obeyed(arguments: Seq<Seq<char>>)
    ensures
        ({
            let child = arguments.len() > 0 && arguments[0] == "--beam-restart-child"@;
            let restarted = arguments.contains("--beam-self-test-restarted"@);
            let watched = arguments.contains("--beam-self-test-watcher-restarted"@);
            let watcher = arguments.contains("--beam-self-test-watcher"@);
            let restart = arguments.contains("--beam-self-test-restart"@);
            let mode = mode_of(arguments);
            &&& mode is ReplaceWhenFree <==> child
            &&& mode is ReportRestarted <==> !child && restarted
            &&& mode is ReportWatcherRestarted <==> !child && !restarted && watched
            &&& mode is StartWatcher <==> !child && !restarted && !watched && watcher
            &&& mode is Restart <==> !child && !restarted && !watched && !watcher && restart
            &&& mode is Serve <==> !child && !restarted && !watched && !watcher && !restart
        }),
{
}

/// The process that restarts Beam is told all that Beam was told, in order, behind the argument
/// that makes it wait; only in the trial of a restart something is added, at the end.
pub proof fn law_restarts_pass_arguments_on(arguments: Seq<Seq<char>>)
    ensures
        ({
            let passed = watcher_arguments_of(arguments);
            let trial = arguments.contains("--beam-self-test-watcher"@);
            &&& passed[0] == "--beam-restart-child"@
            &&& passed.skip(1).take(arguments.len() as int) == arguments
            &&& passed.len() == 1 + arguments.len() + if trial {
                1int
            } else {
                0
            }
            &&& trial ==> passed.last() == "--beam-self-test-watcher-restarted"@
        }),
{
    let passed = watcher_arguments_of(arguments);
    assert(passed.skip(1).take(arguments.len() as int) =~= arguments);
}

} // verus!
