//! The command router: one verb and its argument in, typed responses out, and
//! the work that is left for the surrounding program.

use crate::db::{
    entries, get_latest, get_many, get_one, has_id, has_room, lemma_ids_are_unique, newest_first,
    next_entry, next_id, ordered, reset, save_new_crl, spec_neutralize_num, Crl, Entry, SavedCrl,
    Store, MAX_LISTED,
};
use crate::error::CrlError;
use crate::text::{
    decimal, lemma_signed_decimal_parses, parse_limit, signed_decimal, spec_parse_i64,
    spec_parse_limit, str_eq, u64_to_string,
};
use vstd::prelude::*;
use vstd::string::*;

verus! {

/// The verbs of the command line.
#[derive(Debug, Clone, Copy, PartialEq, Eq, Structural)]
pub enum Action {
    Start,
    Health,
    Kill,
    List,
    Clean,
    Restore,
    Get,
    Help,
}

impl Action {
    /// The verb that the word `s` names, if it names one.
    pub open spec fn spec_from_string(s: Seq<char>) -> Option<Action> {
        if s == "start"@ {
            Some(Action::Start)
        } else if s == "s"@ || s == "set"@ {
            Some(Action::Restore)
        } else if s == "health"@ {
            Some(Action::Health)
        } else if s == "k"@ || s == "kill"@ {
            Some(Action::Kill)
        } else if s == "l"@ || s == "list"@ {
            Some(Action::List)
        } else if s == "c"@ || s == "clean"@ {
            Some(Action::Clean)
        } else if s == "g"@ || s == "get"@ {
            Some(Action::Get)
        } else if s == "h"@ || s == "help"@ {
            Some(Action::Help)
        } else {
            None
        }
    }

    /// Reads a verb: its name, or the one letter that stands for it.
    pub fn from_string(s: &str) -> (r: Option<Action>)
        ensures
            r == Action::spec_from_string(s@),
    {
        if str_eq(s, "start") {
            Some(Action::Start)
        } else if str_eq(s, "s") || str_eq(s, "set") {
            Some(Action::Restore)
        } else if str_eq(s, "health") {
            Some(Action::Health)
        } else if str_eq(s, "k") || str_eq(s, "kill") {
            Some(Action::Kill)
        } else if str_eq(s, "l") || str_eq(s, "list") {
            Some(Action::List)
        } else if str_eq(s, "c") || str_eq(s, "clean") {
            Some(Action::Clean)
        } else if str_eq(s, "g") || str_eq(s, "get") {
            Some(Action::Get)
        } else if str_eq(s, "h") || str_eq(s, "help") {
            Some(Action::Help)
        } else {
            None
        }
    }
}

/// The kind of a response: a failure, a confirmation, or content to show.
#[derive(Debug, Clone, Copy, PartialEq, Eq, Structural)]
pub enum ActionResponseType {
    Error,
    Success,
    Content,
}

/// What the router answers: a message, its kind, and the entries it is about.
#[derive(Debug)]
pub struct ActionResponse {
    pub message: String,
    pub _type: ActionResponseType,
    pub crls: Option<Vec<SavedCrl>>,
}

/// What a response says.
pub struct Response {
    pub message: Seq<char>,
    pub kind: ActionResponseType,
    pub crls: Option<Seq<Entry>>,
}

impl View for ActionResponse {
    type V = Response;

    open spec fn view(&self) -> Response {
        Response {
            message: self.message@,
            kind: self._type,
            crls: match self.crls {
                Some(rows) => Some(entries(rows@)),
                None => None,
            },
        }
    }
}

/// A response of the kind `Error` that carries no entries.
pub open spec fn error_response(message: Seq<char>) -> Response {
    Response { message, kind: ActionResponseType::Error, crls: None }
}

/// A response of the kind `Success` that carries no entries.
pub open spec fn success_response(message: Seq<char>) -> Response {
    Response { message, kind: ActionResponseType::Success, crls: None }
}

/// A response of the kind `Content` that carries no entries.
pub open spec fn content_response(message: Seq<char>) -> Response {
    Response { message, kind: ActionResponseType::Content, crls: None }
}

/// The name of the daemon's process.
pub const DAEMON_NAME: &'static str = "crl";

/// The time between two samples of the clipboard, in milliseconds.
pub const POLL_INTERVAL_MS: u64 = 500;

/// How many entries a listing returns where the command names no limit.
pub const DEFAULT_LIMIT: u32 = 25;

/// How many daemons are alive.
#[derive(Debug, Clone, Copy, PartialEq, Eq, Structural)]
pub enum DaemonHealth {
    /// None is.
    NotRunning,
    /// One is, with this process id.
    Running(u32),
    /// More than one is: they race for the newest entry.
    MultipleRunning,
}

/// The health that the process ids `daemons` show.
pub open spec fn spec_classify(daemons: Seq<u32>) -> DaemonHealth {
    if daemons.len() == 0 {
        DaemonHealth::NotRunning
    } else if daemons.len() == 1 {
        DaemonHealth::Running(daemons[0])
    } else {
        DaemonHealth::MultipleRunning
    }
}

/// Tells from the ids of the live daemon processes how many daemons run.
pub fn classify(daemons: &Vec<u32>) -> (r: DaemonHealth)
    ensures
        r == spec_classify(daemons@),
{
    if daemons.len() == 0 {
        DaemonHealth::NotRunning
    } else if daemons.len() == 1 {
        DaemonHealth::Running(daemons[0])
    } else {
        DaemonHealth::MultipleRunning
    }
}

/// The response to a health check that found `health`.
pub open spec fn health_response(health: DaemonHealth) -> Response {
    match health {
        DaemonHealth::NotRunning => error_response(
            "clr daemon is not running. run 'sudo crl start' to restart..."@,
        ),
        DaemonHealth::Running(pid) => success_response(
            "crl daemon is running on pid: "@ + decimal(pid as nat),
        ),
        DaemonHealth::MultipleRunning => error_response(
            "more than one daemon running... not good."@,
        ),
    }
}

/// The shell command that ends the process `pid` by force.
pub open spec fn spec_kill_command(pid: u32) -> Seq<char> {
    "kill -9 "@ + decimal(pid as nat)
}

/// The shell command that ends the process `pid` by force.
pub fn kill_command(pid: u32) -> (r: String)
    ensures
        r@ == spec_kill_command(pid),
{
    let digits = u64_to_string(pid as u64);
    String::from_str("kill -9 ").concat(digits.as_str())
}

/// Work outside the router that a command still needs.
#[derive(Debug)]
pub enum Step {
    /// Nothing is left to do.
    Done,
    /// Detach the daemon; it samples the clipboard unless polling is blocked.
    Detach { block_polling: bool },
    /// Run these shell commands, one for each daemon.
    Kill { commands: Vec<String> },
    /// Write the text of this entry to the clipboard.
    WriteClipboard { crl: SavedCrl },
    /// Delete every entry of the history where it is kept; there are `count`.
    Purge { count: usize },
}

/// What a step says.
pub enum Pending {
    Done,
    Detach { block_polling: bool },
    Kill { commands: Seq<Seq<char>> },
    WriteClipboard { crl: Entry },
    Purge { count: nat },
}

impl View for Step {
    type V = Pending;

    open spec fn view(&self) -> Pending {
        match self {
            Step::Done => Pending::Done,
            Step::Detach { block_polling } => Pending::Detach { block_polling: *block_polling },
            Step::Kill { commands } => Pending::Kill {
                commands: commands@.map_values(|c: String| c@),
            },
            Step::WriteClipboard { crl } => Pending::WriteClipboard { crl: crl@ },
            Step::Purge { count } => Pending::Purge { count: *count as nat },
        }
    }
}

/// What an optional argument says.
pub open spec fn optional_text(arg: Option<String>) -> Option<Seq<char>> {
    match arg {
        Some(text) => Some(text@),
        None => None,
    }
}

/// The listing of the `limit` newest entries of `s`, at most `MAX_LISTED`.
pub open spec fn listing(s: Seq<Entry>, limit: u32) -> Response {
    Response {
        message: Seq::<char>::empty(),
        kind: ActionResponseType::Content,
        crls: Some(newest_first(s, spec_neutralize_num(limit, 0, MAX_LISTED) as nat)),
    }
}

/// The response to `list` with the argument `arg` on the history `s`.
pub open spec fn list_response(arg: Option<Seq<char>>, s: Seq<Entry>) -> Response {
    match arg {
        Some(limit) => match spec_parse_limit(limit, MAX_LISTED) {
            Some(limit) => listing(s, limit),
            None => error_response(CrlError::InvalidArgument.spec_message()),
        },
        None => listing(s, DEFAULT_LIMIT),
    }
}

/// Why `set` with the argument `arg` writes nothing, where the history `s`
/// has no entry for it.
pub open spec fn set_refusal(arg: Option<Seq<char>>, s: Seq<Entry>) -> Seq<char> {
    match arg {
        None => "please provide a valid id."@,
        Some(id) => if spec_parse_i64(id) is None {
            CrlError::InvalidId.spec_message()
        } else {
            "no crl with that id!"@
        },
    }
}

/// Whether the history `s` holds an entry whose id the argument `arg` writes.
pub open spec fn names_entry(arg: Option<Seq<char>>, s: Seq<Entry>) -> bool {
    match arg {
        Some(id) => match spec_parse_i64(id) {
            Some(id) => has_id(s, id as int),
            None => false,
        },
        None => false,
    }
}

/// What `set` with the argument `arg` does on the history `s`: it asks for the
/// entry of that id to be written to the clipboard and says nothing yet, or it
/// says why there is nothing to write.
pub open spec fn set_outcome(
    before: Seq<Response>,
    after: Seq<Response>,
    arg: Option<Seq<char>>,
    s: Seq<Entry>,
    step: Pending,
) -> bool {
    if names_entry(arg, s) {
        &&& after == before
        &&& step matches Pending::WriteClipboard { crl }
        &&& s.contains(crl)
        &&& crl.id == spec_parse_i64(arg.unwrap()).unwrap()
    } else {
        &&& after == before.push(error_response(set_refusal(arg, s)))
        &&& step == Pending::Done
    }
}

/// The response to `clean` on a history of `count` entries.
pub open spec fn clean_response(count: nat) -> Response {
    success_response(decimal(count) + " crls deleted"@)
}

/// The responses that end a step, given how the work outside went.
pub open spec fn finish_responses(step: Pending, outcome: Result<(), CrlError>) -> Seq<Response> {
    match outcome {
        Err(e) => seq![error_response(e.spec_message())],
        Ok(_) => match step {
            Pending::Done => Seq::<Response>::empty(),
            Pending::Detach { .. } => seq![
                success_response("Ok!"@),
                content_response("But check that process is alive with arg 'crl health'"@),
            ],
            Pending::Kill { .. } => seq![
                success_response("daemon killed. check health with 'crl health'"@),
            ],
            Pending::WriteClipboard { crl } => seq![
                Response {
                    message: "success!"@,
                    kind: ActionResponseType::Success,
                    crls: Some(seq![crl]),
                },
            ],
            Pending::Purge { count } => seq![clean_response(count)],
        },
    }
}

/// The history that the end of a step leaves of the history `s`: nothing
/// where every entry was to be deleted and was, and `s` otherwise.
pub open spec fn finish_history(
    step: Pending,
    outcome: Result<(), CrlError>,
    s: Seq<Entry>,
) -> Seq<Entry> {
    if outcome is Ok && step is Purge {
        Seq::<Entry>::empty()
    } else {
        s
    }
}

/// Whether the daemon goes on sampling.
#[derive(Debug, Clone, Copy, PartialEq, Eq, Structural)]
pub enum Next {
    /// It waits for the next sample.
    Continue,
    /// It ends.
    Stop,
}

/// What the daemon does after a sample that ended in `outcome`: it ends where
/// its first sample finds the clipboard or the history unavailable, and goes
/// on after every other sample, failed or not.
pub open spec fn spec_after_sample(first: bool, outcome: Result<Option<i64>, CrlError>) -> Next {
    if first && (outcome == Err::<Option<i64>, CrlError>(CrlError::ClipboardUnavailable)
        || outcome == Err::<Option<i64>, CrlError>(CrlError::StorageUnavailable)) {
        Next::Stop
    } else {
        Next::Continue
    }
}

/// Decides after each sample whether the daemon goes on: `first` says whether
/// it was the first one, `outcome` how it ended.
pub fn after_sample(first: bool, outcome: &Result<Option<i64>, CrlError>) -> (next: Next)
    ensures
        next == spec_after_sample(first, *outcome),
{
    match outcome {
        Err(CrlError::ClipboardUnavailable) | Err(CrlError::StorageUnavailable) => if first {
            Next::Stop
        } else {
            Next::Continue
        },
        _ => Next::Continue,
    }
}

/// Whether the clipboard text `text` is news to the history `s`: `s` is empty,
/// or its newest entry holds another text.
pub open spec fn is_change(s: Seq<Entry>, text: Seq<char>) -> bool {
    s.len() == 0 || s.last().text != text
}

/// The history after one sample `text` of the clipboard at the time `now`.
pub open spec fn after_tick(s: Seq<Entry>, text: Seq<char>, now: Seq<char>) -> Seq<Entry> {
    if is_change(s, text) && has_room(s) {
        s.push(next_entry(s, text, now))
    } else {
        s
    }
}

/// The text of `HELP`.
pub const HELP: &'static str = "
command:        argument:

start           -                   start crl daemon
s, set          crl id              sets crl to os clipboard
health          -                   check daemon health
k, kill         -                   kill crl daemon
l, list         -, limit            lists crls 
c, clean        -                   deletes all crl
g, get          query               queries crls and lists them
h, help         -                   what you are doing now
            ";

/// What `run` does with the verb `action` and its argument `arg`, on the
/// history `s` and the daemons `daemons`: the responses it adds and the step
/// it asks for.
pub open spec fn run_outcome(
    before: Seq<Response>,
    after: Seq<Response>,
    action: Option<Action>,
    arg: Option<Seq<char>>,
    s: Seq<Entry>,
    daemons: Seq<u32>,
    step: Pending,
) -> bool {
    match action {
        Some(Action::Start) => {
            &&& after == before.push(content_response("Starting crl..."@))
            &&& step == (Pending::Detach { block_polling: false })
        },
        Some(Action::Health) => {
            &&& after == before.push(health_response(spec_classify(daemons)))
            &&& step == Pending::Done
        },
        Some(Action::Kill) => {
            &&& after == before
            &&& step == (Pending::Kill {
                commands: daemons.map_values(|pid: u32| spec_kill_command(pid)),
            })
        },
        Some(Action::List) => {
            &&& after == before.push(list_response(arg, s))
            &&& step == Pending::Done
        },
        Some(Action::Restore) => set_outcome(before, after, arg, s, step),
        Some(Action::Clean) => {
            &&& after == before
            &&& step == (Pending::Purge { count: s.len() })
        },
        Some(Action::Get) => {
            &&& after == before.push(error_response("get is not available."@))
            &&& step == Pending::Done
        },
        Some(Action::Help) => {
            &&& after == before.push(content_response(HELP@))
            &&& step == Pending::Done
        },
        None => {
            &&& after == before.push(success_response("no action?"@))
            &&& step == Pending::Done
        },
    }
}

/// The history after one sample `text` of the clipboard at each of `times`.
pub open spec fn after_ticks(s: Seq<Entry>, text: Seq<char>, times: Seq<Seq<char>>) -> Seq<Entry>
    decreases times.len(),
{
    if times.len() == 0 {
        s
    } else {
        after_ticks(after_tick(s, text, times[0]), text, times.drop_first())
    }
}

/// A sample that differs from the newest entry adds exactly one entry, which
/// holds the sampled text, and changes no entry that was there.
pub proof fn lemma_change_inserts(s: Seq<Entry>, text: Seq<char>, now: Seq<char>)
    requires
        is_change(s, text),
        has_room(s),
    ensures
        after_tick(s, text, now).len() == s.len() + 1,
        after_tick(s, text, now).last().text == text,
        after_tick(s, text, now).drop_last() == s,
{
    assert(s.push(next_entry(s, text, now)).drop_last() =~= s);
}

/// A sample that equals the newest entry leaves the history as it is.
pub proof fn lemma_same_text_inserts_nothing(s: Seq<Entry>, text: Seq<char>, now: Seq<char>)
    requires
        s.len() > 0,
        s.last().text == text,
    ensures
        after_tick(s, text, now) == s,
{
}

/// A text that was sampled once is no news the second time.
pub proof fn lemma_tick_settles(s: Seq<Entry>, text: Seq<char>, first: Seq<char>, then: Seq<char>)
    ensures
        after_tick(after_tick(s, text, first), text, then) == after_tick(s, text, first),
{
}

/// A clipboard text that stays the same over one sample or more adds what the
/// first sample adds, however many samples follow.
pub proof fn lemma_ticks_idempotent(s: Seq<Entry>, text: Seq<char>, times: Seq<Seq<char>>)
    requires
        times.len() >= 1,
    ensures
        after_ticks(s, text, times) == after_tick(s, text, times[0]),
    decreases times.len(),
{
    let once = after_tick(s, text, times[0]);
    let rest = times.drop_first();
    if rest.len() == 0 {
        assert(after_ticks(once, text, rest) == once);
    } else {
        lemma_ticks_idempotent(once, text, rest);
        lemma_tick_settles(s, text, times[0], rest[0]);
    }
}

/// On a history that can take one more entry, a clipboard text that is held
/// over one sample or more adds exactly one entry where it differs from the
/// newest entry and none where it does not, however many samples are taken;
/// after them the newest entry holds the text.
pub proof fn lemma_held_text_adds_one_entry(
    s: Seq<Entry>,
    text: Seq<char>,
    times: Seq<Seq<char>>,
)
    requires
        times.len() >= 1,
        has_room(s),
    ensures
        after_ticks(s, text, times).len() == s.len() + (if is_change(s, text) {
            1int
        } else {
            0int
        }),
        after_ticks(s, text, times).len() > 0,
        after_ticks(s, text, times).last().text == text,
        after_ticks(s, text, times).take(s.len() as int) == s,
{
    lemma_ticks_idempotent(s, text, times);
    let once = after_tick(s, text, times[0]);
    assert(once.take(s.len() as int) =~= s);
}

/// `set` with the numeral of a stored entry's id asks for that very entry to
/// be written to the clipboard, and says nothing before it is.
pub proof fn lemma_set_writes_entry(
    before: Seq<Response>,
    after: Seq<Response>,
    s: Seq<Entry>,
    i: int,
    step: Pending,
)
    requires
        ordered(s),
        0 <= i < s.len(),
        i64::MIN <= s[i].id <= i64::MAX,
        set_outcome(before, after, Some(signed_decimal(s[i].id)), s, step),
    ensures
        step == (Pending::WriteClipboard { crl: s[i] }),
        after == before,
{
    let id = s[i].id as i64;
    lemma_signed_decimal_parses(id);
    assert(has_id(s, id as int));
    let crl = step->WriteClipboard_crl;
    let j = s.index_of(crl);
    lemma_ids_are_unique(s, i, j);
}

/// Whether `run` reads or changes the history for the verb `action`.
pub open spec fn spec_needs_history(action: Option<Action>) -> bool {
    action == Some(Action::List) || action == Some(Action::Restore) || action == Some(
        Action::Clean,
    )
}

/// Whether `run` reads the ids of the live daemons for the verb `action`.
pub open spec fn spec_needs_daemons(action: Option<Action>) -> bool {
    action == Some(Action::Health) || action == Some(Action::Kill)
}

/// Whether the history has to be at hand to run `action`.
pub fn needs_history(action: Option<Action>) -> (r: bool)
    ensures
        r == spec_needs_history(action),
{
    match action {
        Some(Action::List) | Some(Action::Restore) | Some(Action::Clean) => true,
        _ => false,
    }
}

/// Whether the ids of the live daemons have to be at hand to run `action`.
pub fn needs_daemons(action: Option<Action>) -> (r: bool)
    ensures
        r == spec_needs_daemons(action),
{
    match action {
        Some(Action::Health) | Some(Action::Kill) => true,
        _ => false,
    }
}

/// A verb that needs no history answers the same on every history, and one
/// that needs no daemons answers the same whichever are alive.
pub proof fn lemma_run_reads_what_it_needs(
    before: Seq<Response>,
    after: Seq<Response>,
    action: Option<Action>,
    arg: Option<Seq<char>>,
    s: Seq<Entry>,
    daemons: Seq<u32>,
    step: Pending,
    other: Seq<Entry>,
    others: Seq<u32>,
)
    requires
        run_outcome(before, after, action, arg, s, daemons, step),
    ensures
        !spec_needs_history(action) ==> run_outcome(
            before,
            after,
            action,
            arg,
            other,
            daemons,
            step,
        ),
        !spec_needs_daemons(action) ==> run_outcome(before, after, action, arg, s, others, step),
{
}

/// The run of one command: the responses that it has gathered so far.
pub struct Session {
    pub action_responses: Vec<ActionResponse>,
}

impl View for Session {
    type V = Seq<Response>;

    open spec fn view(&self) -> Seq<Response> {
        self.action_responses@.map_values(|r: ActionResponse| r@)
    }
}

impl Session {
    /// A run that has gathered no response yet.
    pub fn new() -> (r: Session)
        ensures
            r@ == Seq::<Response>::empty(),
    {
        let r = Session { action_responses: Vec::new() };
        assert(r@ =~= Seq::<Response>::empty());
        r
    }

    fn respond(&mut self, message: String, kind: ActionResponseType, crls: Option<Vec<SavedCrl>>)
        ensures
            final(self)@ == old(self)@.push(
                Response {
                    message: message@,
                    kind,
                    crls: match crls {
                        Some(rows) => Some(entries(rows@)),
                        None => None,
                    },
                },
            ),
    {
        let response = ActionResponse { message, _type: kind, crls };
        let ghost said = response@;
        self.action_responses.push(response);
        assert(self@ =~= old(self)@.push(said));
    }

    /// Reports a failure of the surrounding program as a response.
    pub fn fail(&mut self, error: CrlError)
        ensures
            final(self)@ == old(self)@.push(error_response(error.spec_message())),
    {
        self.respond(error.message(), ActionResponseType::Error, None);
    }
    /// Routes one command: the verb `action` with its argument, on the history
    /// `store` and the process ids of the live daemons. Adds the responses
    /// that are known at once and returns the work that is left.
    pub fn run(
        &mut self,
        action: Option<Action>,
        argument: Option<String>,
        store: &Store,
        daemons: &Vec<u32>,
    ) -> (step: Step)
        ensures
            run_outcome(
                old(self)@,
                final(self)@,
                action,
                optional_text(argument),
                store@,
                daemons@,
                step@,
            ),
    {
        match action {
            Some(Action::Start) => self.run_daemon(false),
            Some(Action::Health) => {
                self.check_health(daemons);
                Step::Done
            },
            Some(Action::Kill) => self.kill_daemon(daemons),
            Some(Action::List) => {
                self.list_crls(argument, store);
                Step::Done
            },
            Some(Action::Restore) => self.set_crl_to_clipboard(argument, store),
            Some(Action::Clean) => self.clean_database(store),
            Some(Action::Get) => {
                self.respond(
                    String::from_str("get is not available."),
                    ActionResponseType::Error,
                    None,
                );
                Step::Done
            },
            Some(Action::Help) => {
                self.show_help();
                Step::Done
            },
            None => {
                self.respond(String::from_str("no action?"), ActionResponseType::Success, None);
                Step::Done
            },
        }
    }

    /// Starts the daemon: says so, and asks for the detachment.
    pub fn run_daemon(&mut self, block_polling: bool) -> (step: Step)
        ensures
            final(self)@ == old(self)@.push(content_response("Starting crl..."@)),
            step@ == (Pending::Detach { block_polling }),
    {
        self.respond(String::from_str("Starting crl..."), ActionResponseType::Content, None);
        Step::Detach { block_polling }
    }

    /// One sample of the clipboard: `os_clip` is its text, or `None` where it
    /// could not be read, and `now` the time. Appends the text to the history
    /// where it differs from the newest entry, and returns the new entry's id.
    pub fn refresh_clipboard(store: &mut Store, os_clip: Option<String>, now: &str) -> (r: Result<
        Option<i64>,
        CrlError,
    >)
        requires
            old(store).wf(),
        ensures
            final(store).wf(),
            os_clip matches Some(text) ==> final(store)@ == after_tick(old(store)@, text@, now@),
            match r {
                Ok(Some(id)) => os_clip is Some && is_change(old(store)@, os_clip.unwrap()@)
                    && has_room(old(store)@) && id == next_id(old(store)@) && final(store)@ == old(store)@.push(next_entry(old(store)@, os_clip.unwrap()@, now@)),
                Ok(None) => os_clip is Some && !is_change(old(store)@, os_clip.unwrap()@) && final(store)@ == old(store)@,
                Err(e) => final(store)@ == old(store)@ && (match os_clip {
                    None => e == CrlError::ClipboardUnavailable,
                    Some(text) => e == CrlError::StorageUnavailable && is_change(
                        old(store)@,
                        text@,
                    ) && !has_room(old(store)@),
                }),
            },
    {
        let text = match os_clip {
            Some(text) => text,
            None => {
                return Err(CrlError::ClipboardUnavailable);
            },
        };
        let changed = match get_latest(store) {
            Some(newest) => !str_eq(text.as_str(), newest.crl.text.as_str()),
            None => true,
        };
        if changed {
            match save_new_crl(store, &Crl { text }, now) {
                Ok(id) => Ok(Some(id)),
                Err(e) => Err(e),
            }
        } else {
            Ok(None)
        }
    }

    /// Reports how many daemons are alive, from the ids of their processes.
    pub fn check_health(&mut self, daemons: &Vec<u32>)
        ensures
            final(self)@ == old(self)@.push(health_response(spec_classify(daemons@))),
    {
        match classify(daemons) {
            DaemonHealth::NotRunning => {
                self.respond(
                    String::from_str(
                        "clr daemon is not running. run 'sudo crl start' to restart...",
                    ),
                    ActionResponseType::Error,
                    None,
                );
            },
            DaemonHealth::Running(pid) => {
                let digits = u64_to_string(pid as u64);
                self.respond(
                    String::from_str("crl daemon is running on pid: ").concat(digits.as_str()),
                    ActionResponseType::Success,
                    None,
                );
            },
            DaemonHealth::MultipleRunning => {
                self.respond(
                    String::from_str("more than one daemon running... not good."),
                    ActionResponseType::Error,
                    None,
                );
            },
        }
    }

    /// Asks for the end of every daemon: one shell command for each process id.
    pub fn kill_daemon(&mut self, daemons: &Vec<u32>) -> (step: Step)
        ensures
            final(self)@ == old(self)@,
            step@ == (Pending::Kill {
                commands: daemons@.map_values(|pid: u32| spec_kill_command(pid)),
            }),
    {
        let mut commands: Vec<String> = Vec::new();
        let mut i: usize = 0;
        while i < daemons.len()
            invariant
                i <= daemons@.len(),
                commands@.len() == i,
                forall|k: int| 0 <= k < i ==> (#[trigger] commands@[k])@ == spec_kill_command(
                    daemons@[k],
                ),
            decreases daemons@.len() - i,
        {
            commands.push(kill_command(daemons[i]));
            i += 1;
        }
        assert(commands@.map_values(|c: String| c@) =~= daemons@.map_values(
            |pid: u32| spec_kill_command(pid),
        ));
        Step::Kill { commands }
    }

    /// Lists the newest entries: as many as the argument asks for,
    /// `DEFAULT_LIMIT` where there is none, never more than `MAX_LISTED`.
    pub fn list_crls(&mut self, arg: Option<String>, store: &Store)
        ensures
            final(self)@ == old(self)@.push(list_response(optional_text(arg), store@)),
    {
        let limit = match arg {
            Some(arg) => match parse_limit(arg.as_str(), MAX_LISTED) {
                Some(limit) => limit,
                None => {
                    self.fail(CrlError::InvalidArgument);
                    return ;
                },
            },
            None => DEFAULT_LIMIT,
        };
        let crls = get_many(store, limit);
        self.respond(String::new(), ActionResponseType::Content, Some(crls));
    }

    /// Looks up the entry whose id the argument writes, and asks for its text
    /// to be written to the clipboard.
    pub fn set_crl_to_clipboard(&mut self, id: Option<String>, store: &Store) -> (step: Step)
        ensures
            set_outcome(old(self)@, final(self)@, optional_text(id), store@, step@),
    {
        match id {
            Some(id) => match get_one(store, id.as_str()) {
                Ok(Some(crl)) => {
                    assert(has_id(store@, crl.id as int)) by {
                        let i = store@.index_of(crl@);
                        assert(store@[i].id == crl.id);
                    }
                    Step::WriteClipboard { crl }
                },
                Ok(None) => {
                    self.respond(
                        String::from_str("no crl with that id!"),
                        ActionResponseType::Error,
                        None,
                    );
                    Step::Done
                },
                Err(e) => {
                    self.fail(e);
                    Step::Done
                },
            },
            None => {
                self.respond(
                    String::from_str("please provide a valid id."),
                    ActionResponseType::Error,
                    None,
                );
                Step::Done
            },
        }
    }

    /// Asks for every entry of the history to be deleted, and counts them.
    /// Says nothing yet: `finish` does, once it is known how the deletion went.
    pub fn clean_database(&mut self, store: &Store) -> (step: Step)
        ensures
            final(self)@ == old(self)@,
            step@ == (Pending::Purge { count: store@.len() }),
    {
        Step::Purge { count: store.len() }
    }

    /// Shows the summary of the commands.
    pub fn show_help(&mut self)
        ensures
            final(self)@ == old(self)@.push(content_response(HELP@)),
    {
        self.respond(String::from_str(HELP), ActionResponseType::Content, None);
    }

    /// Ends a step: says how the work outside the router went, and empties
    /// the history where its entries were to be deleted and were.
    pub fn finish(&mut self, step: Step, outcome: Result<(), CrlError>, store: &mut Store)
        ensures
            final(self)@ == old(self)@ + finish_responses(step@, outcome),
            final(store)@ == finish_history(step@, outcome, old(store)@),
            old(store).wf() ==> final(store).wf(),
            outcome is Ok && step is Purge ==> newest_first(final(store)@, MAX_LISTED as nat)
                == Seq::<Entry>::empty(),
    {
        match outcome {
            Err(e) => {
                self.fail(e);
            },
            Ok(_) => match step {
                Step::Done => {},
                Step::Detach { .. } => {
                    self.respond(String::from_str("Ok!"), ActionResponseType::Success, None);
                    self.respond(
                        String::from_str("But check that process is alive with arg 'crl health'"),
                        ActionResponseType::Content,
                        None,
                    );
                },
                Step::Kill { .. } => {
                    self.respond(
                        String::from_str("daemon killed. check health with 'crl health'"),
                        ActionResponseType::Success,
                        None,
                    );
                },
                Step::WriteClipboard { crl } => {
                    let ghost entry = crl@;
                    let mut crls: Vec<SavedCrl> = Vec::new();
                    crls.push(crl);
                    assert(entries(crls@) =~= seq![entry]);
                    self.respond(
                        String::from_str("success!"),
                        ActionResponseType::Success,
                        Some(crls),
                    );
                },
                Step::Purge { count } => {
                    reset(store);
                    let message = u64_to_string(count as u64).concat(" crls deleted");
                    self.respond(message, ActionResponseType::Success, None);
                },
            },
        }
        assert(self@ =~= old(self)@ + finish_responses(step@, outcome));
    }
}

/// Draws a 16-bit number with `rand::thread_rng().gen()`. Which number comes
/// is left open: it changes from call to call.
#[verifier::external_body]
fn random_u16() -> (n: u16) {
    rand::Rng::gen(&mut rand::thread_rng())
}

/// Helpers for trying the library out.
pub struct TestUtils {}

impl TestUtils {
    /// The numeral of a number drawn at random.
    pub fn create_rnd_string() -> (r: String)
        ensures
            exists|n: u16| r@ == decimal(n as nat),
    {
        let n = random_u16();
        u64_to_string(n as u64)
    }
}

} // verus!
