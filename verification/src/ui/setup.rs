//! The guided setup: which question comes next and what the answers mean.
//! Asking (prompts, menus, confirmations) is the caller's; it feeds each
//! answer to `SetupFlow::answer` until the flow is done.
use vstd::prelude::*;

use crate::cli::{filter_kind_name, FileTypeFilter};
use crate::text::{parse_i64, parsed_i64};

verus! {

/// What the setup produced.
pub struct SetupResult {
    pub token: String,
    pub action: SetupAction,
}

/// The action chosen in the setup, with its settings.
pub enum SetupAction {
    Info,
    Watch { chat_id: i64, continuous: bool },
    List {
        chat_id: Option<i64>,
        file_type: Option<FileTypeFilter>,
        after: Option<String>,
        before: Option<String>,
    },
    Download {
        chat_id: Option<i64>,
        file_type: Option<FileTypeFilter>,
        interactive: bool,
        parallel: usize,
        skip_same: bool,
        dry_run: bool,
        after: Option<String>,
        before: Option<String>,
    },
    Export { chat_id: Option<i64>, file_type: Option<FileTypeFilter>, output: Option<String> },
}

/// The questions of the setup.
#[derive(Debug, Clone, Copy, PartialEq, Eq, Structural)]
pub enum Prompt {
    /// The bot token (text).
    Token,
    /// What to do: a menu of 5 (check the bot, watch, list, download, export).
    Action,
    /// The chat or channel to watch (a number).
    ChatId,
    /// A menu of 2: watch continuously, or once.
    PollingMode,
    /// A chat id, or empty for all (text).
    OptionalChatId,
    /// A menu of 8: all kinds, then PDF, image, video, audio, document,
    /// animation, voice.
    FileType,
    /// Whether to filter by dates (yes/no, no by default).
    UseDateRange,
    /// The first day, or empty (text).
    AfterDate,
    /// The last day, or empty (text).
    BeforeDate,
    /// Parallel downloads (a count, 3 by default).
    Parallel,
    /// Skip already downloaded files (yes/no, yes by default).
    SkipSame,
    /// Only simulate (yes/no, no by default).
    DryRun,
    /// The output file, or empty for the terminal (text).
    OutputFile,
}

/// An answer to a prompt.
pub enum Answer {
    Text(String),
    Number(i64),
    Count(usize),
    /// The index of the chosen menu item.
    Choice(usize),
    Confirm(bool),
}

/// Why the setup stopped.
#[derive(Debug)]
pub enum SetupError {
    /// An optional chat id that is not an `i64`; the text is kept.
    InvalidChatId(String),
}

/// Where the flow is after an answer.
pub enum SetupStep {
    Ask(Prompt),
    Done(SetupResult),
    Failed(SetupError),
}

/// The number of items of a menu prompt.
pub open spec fn menu_len(p: Prompt) -> nat {
    match p {
        Prompt::Action => 5,
        Prompt::PollingMode => 2,
        Prompt::FileType => 8,
        _ => 0,
    }
}

/// Whether an answer is of the kind the prompt asks for (menu choices within
/// the menu).
pub open spec fn answer_fits(p: Prompt, a: Answer) -> bool {
    match p {
        Prompt::Token | Prompt::OptionalChatId | Prompt::AfterDate | Prompt::BeforeDate
        | Prompt::OutputFile => a is Text,
        Prompt::ChatId => a is Number,
        Prompt::Parallel => a is Count,
        Prompt::Action | Prompt::PollingMode | Prompt::FileType => a matches Answer::Choice(i)
            && i < menu_len(p),
        Prompt::UseDateRange | Prompt::SkipSame | Prompt::DryRun => a is Confirm,
    }
}

/// Whether `a` fits prompt `p` (see `answer_fits`).
pub fn fits(p: Prompt, a: &Answer) -> (r: bool)
    ensures
        r == answer_fits(p, *a),
{
    match p {
        Prompt::Token | Prompt::OptionalChatId | Prompt::AfterDate | Prompt::BeforeDate
        | Prompt::OutputFile => matches!(a, Answer::Text(_)),
        Prompt::ChatId => matches!(a, Answer::Number(_)),
        Prompt::Parallel => matches!(a, Answer::Count(_)),
        Prompt::Action => match a {
            Answer::Choice(i) => *i < 5,
            _ => false,
        },
        Prompt::PollingMode => match a {
            Answer::Choice(i) => *i < 2,
            _ => false,
        },
        Prompt::FileType => match a {
            Answer::Choice(i) => *i < 8,
            _ => false,
        },
        Prompt::UseDateRange | Prompt::SkipSame | Prompt::DryRun => matches!(a, Answer::Confirm(_)),
    }
}

/// The kind filter of a `FileType` menu choice; 0 (all kinds) is no filter.
pub open spec fn filter_choice(i: usize) -> Option<FileTypeFilter> {
    if i == 1 {
        Some(FileTypeFilter::Pdf)
    } else if i == 2 {
        Some(FileTypeFilter::Image)
    } else if i == 3 {
        Some(FileTypeFilter::Video)
    } else if i == 4 {
        Some(FileTypeFilter::Audio)
    } else if i == 5 {
        Some(FileTypeFilter::Document)
    } else if i == 6 {
        Some(FileTypeFilter::Animation)
    } else if i == 7 {
        Some(FileTypeFilter::Voice)
    } else {
        None
    }
}

fn filter_for(i: usize) -> (r: Option<FileTypeFilter>)
    ensures
        r == filter_choice(i),
{
    if i == 1 {
        Some(FileTypeFilter::Pdf)
    } else if i == 2 {
        Some(FileTypeFilter::Image)
    } else if i == 3 {
        Some(FileTypeFilter::Video)
    } else if i == 4 {
        Some(FileTypeFilter::Audio)
    } else if i == 5 {
        Some(FileTypeFilter::Document)
    } else if i == 6 {
        Some(FileTypeFilter::Animation)
    } else if i == 7 {
        Some(FileTypeFilter::Voice)
    } else {
        None
    }
}

/// An optional text answer: empty means none.
pub open spec fn non_empty(s: Seq<char>) -> Option<Seq<char>> {
    if s.len() == 0 {
        None
    } else {
        Some(s)
    }
}

fn non_empty_string(s: String) -> (r: Option<String>)
    ensures
        r matches Some(x) ==> x == s && s@.len() > 0,
        r is None <==> s@.len() == 0,
{
    if s.as_str().is_empty() {
        None
    } else {
        Some(s)
    }
}

/// The answers collected so far.
pub struct SetupFlow {
    token: String,
    action: usize,
    chat_id: i64,
    opt_chat_id: Option<i64>,
    file_type: Option<FileTypeFilter>,
    after: Option<String>,
    before: Option<String>,
    parallel: usize,
    skip_same: bool,
    pending: Prompt,
}

/// The collected answers, as values.
pub struct FlowView {
    pub token: Seq<char>,
    pub action: usize,
    pub chat_id: i64,
    pub opt_chat_id: Option<i64>,
    pub file_type: Option<FileTypeFilter>,
    pub after: Option<Seq<char>>,
    pub before: Option<Seq<char>>,
    pub parallel: usize,
    pub skip_same: bool,
    /// The question being asked.
    pub pending: Prompt,
}

impl View for SetupFlow {
    type V = FlowView;

    closed spec fn view(&self) -> FlowView {
        FlowView {
            token: self.token@,
            action: self.action,
            chat_id: self.chat_id,
            opt_chat_id: self.opt_chat_id,
            file_type: self.file_type,
            after: crate::files::catalog::opt_view(self.after),
            before: crate::files::catalog::opt_view(self.before),
            parallel: self.parallel,
            skip_same: self.skip_same,
            pending: self.pending,
        }
    }
}

/// What the next question is after the menu of actions.
pub open spec fn after_action(action: usize) -> Option<Prompt> {
    if action == 0 {
        None
    } else if action == 1 {
        Some(Prompt::ChatId)
    } else {
        Some(Prompt::OptionalChatId)
    }
}

/// What follows the date questions: the end of a listing, or the download
/// settings.
pub open spec fn after_dates(action: usize) -> Option<Prompt> {
    if action == 2 {
        None
    } else {
        Some(Prompt::Parallel)
    }
}

/// The questions asked only for some actions are asked only for them.
pub open spec fn flow_ok(v: FlowView) -> bool {
    &&& v.action < 5
    &&& (v.pending == Prompt::ChatId || v.pending == Prompt::PollingMode) ==> v.action == 1
    &&& (v.pending == Prompt::OptionalChatId || v.pending == Prompt::FileType) ==> 2 <= v.action
        <= 4
    &&& (v.pending == Prompt::UseDateRange || v.pending == Prompt::AfterDate || v.pending
        == Prompt::BeforeDate) ==> (v.action == 2 || v.action == 3)
    &&& (v.pending == Prompt::Parallel || v.pending == Prompt::SkipSame || v.pending
        == Prompt::DryRun) ==> v.action == 3
    &&& v.pending == Prompt::OutputFile ==> v.action == 4
}

/// `r` is the action of the finished flow `v`, with the last answers given
/// (the output file of an export, the dry run of a download, the mode of a
/// watch).
pub open spec fn action_matches(r: SetupAction, v: FlowView, output: Option<Seq<char>>, dry_run: bool, continuous: bool) -> bool {
    match r {
        SetupAction::Info => v.action == 0,
        SetupAction::Watch { chat_id, continuous: c } => v.action == 1 && chat_id == v.chat_id
            && c == continuous,
        SetupAction::List { chat_id, file_type, after, before } => v.action == 2 && chat_id
            == v.opt_chat_id && file_type == v.file_type && crate::files::catalog::opt_view(after)
            == v.after && crate::files::catalog::opt_view(before) == v.before,
        SetupAction::Download {
            chat_id,
            file_type,
            interactive,
            parallel,
            skip_same,
            dry_run: d,
            after,
            before,
        } => v.action == 3 && chat_id == v.opt_chat_id && file_type == v.file_type && interactive
            && parallel == v.parallel && skip_same == v.skip_same && d == dry_run
            && crate::files::catalog::opt_view(after) == v.after && crate::files::catalog::opt_view(
            before,
        ) == v.before,
        SetupAction::Export { chat_id, file_type, output: o } => v.action == 4 && chat_id
            == v.opt_chat_id && file_type == v.file_type && crate::files::catalog::opt_view(o)
            == output,
    }
}

/// `step` finishes the flow `v` (see `action_matches`).
pub open spec fn finished(
    step: SetupStep,
    v: FlowView,
    output: Option<Seq<char>>,
    dry_run: bool,
    continuous: bool,
) -> bool {
    match step {
        SetupStep::Done(r) => r.token@ == v.token && action_matches(
            r.action,
            v,
            output,
            dry_run,
            continuous,
        ),
        _ => false,
    }
}

/// `step` stops the flow on the chat id `text`.
pub open spec fn refused(step: SetupStep, text: Seq<char>) -> bool {
    match step {
        SetupStep::Failed(SetupError::InvalidChatId(x)) => x@ == text,
        _ => false,
    }
}

/// One step of the setup: the flow `v` receives answer `a` to its pending
/// question; `next` is the flow after it and `step` what comes next.
pub open spec fn transition(v: FlowView, a: Answer, next: FlowView, step: SetupStep) -> bool {
    match v.pending {
        Prompt::Token => a matches Answer::Text(t) && next == FlowView {
            token: t@,
            pending: Prompt::Action,
            ..v
        } && step == SetupStep::Ask(Prompt::Action),
        Prompt::Action => a matches Answer::Choice(i) && {
            let w = FlowView { action: i, ..v };
            match after_action(i) {
                Some(p) => next == FlowView { pending: p, ..w } && step == SetupStep::Ask(p),
                None => next == w && finished(step, w, None, false, false),
            }
        },
        Prompt::ChatId => a matches Answer::Number(c) && next == FlowView {
            chat_id: c,
            pending: Prompt::PollingMode,
            ..v
        } && step == SetupStep::Ask(Prompt::PollingMode),
        Prompt::PollingMode => a matches Answer::Choice(m) && next == v && finished(step, v, None, false, m == 0),
        Prompt::OptionalChatId => a matches Answer::Text(t) && if t@.len() == 0 {
            next == FlowView { opt_chat_id: None, pending: Prompt::FileType, ..v } && step
                == SetupStep::Ask(Prompt::FileType)
        } else {
            match parsed_i64(t@) {
                Some(c) => next == FlowView {
                    opt_chat_id: Some(c),
                    pending: Prompt::FileType,
                    ..v
                } && step == SetupStep::Ask(Prompt::FileType),
                None => next == v && refused(step, t@),
            }
        },
        Prompt::FileType => a matches Answer::Choice(i) && {
            let p = if v.action == 4 {
                Prompt::OutputFile
            } else {
                Prompt::UseDateRange
            };
            next == FlowView { file_type: filter_choice(i), pending: p, ..v } && step
                == SetupStep::Ask(p)
        },
        Prompt::UseDateRange => a matches Answer::Confirm(b) && if b {
            next == FlowView { pending: Prompt::AfterDate, ..v } && step == SetupStep::Ask(
                Prompt::AfterDate,
            )
        } else {
            let w = FlowView { after: None, before: None, ..v };
            match after_dates(v.action) {
                Some(p) => next == FlowView { pending: p, ..w } && step == SetupStep::Ask(p),
                None => next == w && finished(step, w, None, false, false),
            }
        },
        Prompt::AfterDate => a matches Answer::Text(t) && next == FlowView {
            after: non_empty(t@),
            pending: Prompt::BeforeDate,
            ..v
        } && step == SetupStep::Ask(Prompt::BeforeDate),
        Prompt::BeforeDate => a matches Answer::Text(t) && {
            let w = FlowView { before: non_empty(t@), ..v };
            match after_dates(v.action) {
                Some(p) => next == FlowView { pending: p, ..w } && step == SetupStep::Ask(p),
                None => next == w && finished(step, w, None, false, false),
            }
        },
        Prompt::Parallel => a matches Answer::Count(n) && next == FlowView {
            parallel: n,
            pending: Prompt::SkipSame,
            ..v
        } && step == SetupStep::Ask(Prompt::SkipSame),
        Prompt::SkipSame => a matches Answer::Confirm(b) && next == FlowView {
            skip_same: b,
            pending: Prompt::DryRun,
            ..v
        } && step == SetupStep::Ask(Prompt::DryRun),
        Prompt::DryRun => a matches Answer::Confirm(b) && next == v && finished(step, v, None, b, false),
        Prompt::OutputFile => a matches Answer::Text(t) && next == v && finished(step, v, non_empty(t@), false, false),
    }
}

impl SetupFlow {
    /// Starts the setup: with a token already known (from `--token` or
    /// `TG_BOT_TOKEN`) the first question is the action, otherwise the token.
    pub fn start(existing_token: Option<&str>) -> (r: (SetupFlow, Prompt))
        ensures
            r.0@.pending == r.1,
            match existing_token {
                Some(t) => r.1 == Prompt::Action && r.0@.token == t@,
                None => r.1 == Prompt::Token,
            },
    {
        let (token, pending) = match existing_token {
            Some(t) => (String::from_str(t), Prompt::Action),
            None => (String::new(), Prompt::Token),
        };
        let flow = SetupFlow {
            token,
            action: 0,
            chat_id: 0,
            opt_chat_id: None,
            file_type: None,
            after: None,
            before: None,
            parallel: 3,
            skip_same: true,
            pending,
        };
        (flow, pending)
    }

    /// The question being asked.
    pub fn pending(&self) -> (r: Prompt)
        ensures
            r == self@.pending,
    {
        self.pending
    }

    fn finish(&mut self, output: Option<String>, dry_run: bool, continuous: bool) -> (r: SetupResult)
        requires
            old(self)@.action < 5,
        ensures
            final(self)@ == old(self)@,
            r.token@ == old(self)@.token,
            action_matches(
                r.action,
                old(self)@,
                crate::files::catalog::opt_view(output),
                dry_run,
                continuous,
            ),
    {
        let token = self.token.clone();
        let action = if self.action == 0 {
            SetupAction::Info
        } else if self.action == 1 {
            SetupAction::Watch { chat_id: self.chat_id, continuous }
        } else if self.action == 2 {
            SetupAction::List {
                chat_id: self.opt_chat_id,
                file_type: self.file_type,
                after: crate::files::catalog::copy_opt(&self.after),
                before: crate::files::catalog::copy_opt(&self.before),
            }
        } else if self.action == 3 {
            SetupAction::Download {
                chat_id: self.opt_chat_id,
                file_type: self.file_type,
                interactive: true,
                parallel: self.parallel,
                skip_same: self.skip_same,
                dry_run,
                after: crate::files::catalog::copy_opt(&self.after),
                before: crate::files::catalog::copy_opt(&self.before),
            }
        } else {
            SetupAction::Export { chat_id: self.opt_chat_id, file_type: self.file_type, output }
        };
        SetupResult { token, action }
    }

    #[verifier::type_invariant]
    spec fn well_formed(self) -> bool {
        flow_ok(self@)
    }

    /// Takes the answer to the pending question (see `transition`).
    pub fn answer(&mut self, a: Answer) -> (step: SetupStep)
        requires
            answer_fits(old(self)@.pending, a),
        ensures
            transition(old(self)@, a, final(self)@, step),
            flow_ok(final(self)@),
    {
        proof {
            use_type_invariant(&*self);
        }
        match (self.pending, a) {
            (Prompt::Token, Answer::Text(t)) => {
                self.token = t;
                self.pending = Prompt::Action;
                SetupStep::Ask(Prompt::Action)
            },
            (Prompt::Action, Answer::Choice(i)) => {
                if i == 0 {
                    self.action = 0;
                    SetupStep::Done(self.finish(None, false, false))
                } else if i == 1 {
                    self.action = 1;
                    self.pending = Prompt::ChatId;
                    SetupStep::Ask(Prompt::ChatId)
                } else {
                    self.action = i;
                    self.pending = Prompt::OptionalChatId;
                    SetupStep::Ask(Prompt::OptionalChatId)
                }
            },
            (Prompt::ChatId, Answer::Number(c)) => {
                self.chat_id = c;
                self.pending = Prompt::PollingMode;
                SetupStep::Ask(Prompt::PollingMode)
            },
            (Prompt::PollingMode, Answer::Choice(m)) => SetupStep::Done(
                self.finish(None, false, m == 0),
            ),
            (Prompt::OptionalChatId, Answer::Text(t)) => {
                if t.as_str().is_empty() {
                    self.opt_chat_id = None;
                    self.pending = Prompt::FileType;
                    SetupStep::Ask(Prompt::FileType)
                } else {
                    match parse_i64(t.as_str()) {
                        Some(c) => {
                            self.opt_chat_id = Some(c);
                            self.pending = Prompt::FileType;
                            SetupStep::Ask(Prompt::FileType)
                        },
                        None => SetupStep::Failed(SetupError::InvalidChatId(t)),
                    }
                }
            },
            (Prompt::FileType, Answer::Choice(i)) => {
                self.file_type = filter_for(i);
                let p = if self.action == 4 {
                    Prompt::OutputFile
                } else {
                    Prompt::UseDateRange
                };
                self.pending = p;
                SetupStep::Ask(p)
            },
            (Prompt::UseDateRange, Answer::Confirm(b)) => {
                if b {
                    self.pending = Prompt::AfterDate;
                    SetupStep::Ask(Prompt::AfterDate)
                } else {
                    self.after = None;
                    self.before = None;
                    if self.action == 2 {
                        SetupStep::Done(self.finish(None, false, false))
                    } else {
                        self.pending = Prompt::Parallel;
                        SetupStep::Ask(Prompt::Parallel)
                    }
                }
            },
            (Prompt::AfterDate, Answer::Text(t)) => {
                self.after = non_empty_string(t);
                self.pending = Prompt::BeforeDate;
                SetupStep::Ask(Prompt::BeforeDate)
            },
            (Prompt::BeforeDate, Answer::Text(t)) => {
                self.before = non_empty_string(t);
                if self.action == 2 {
                    SetupStep::Done(self.finish(None, false, false))
                } else {
                    self.pending = Prompt::Parallel;
                    SetupStep::Ask(Prompt::Parallel)
                }
            },
            (Prompt::Parallel, Answer::Count(n)) => {
                self.parallel = n;
                self.pending = Prompt::SkipSame;
                SetupStep::Ask(Prompt::SkipSame)
            },
            (Prompt::SkipSame, Answer::Confirm(b)) => {
                self.skip_same = b;
                self.pending = Prompt::DryRun;
                SetupStep::Ask(Prompt::DryRun)
            },
            (Prompt::DryRun, Answer::Confirm(b)) => SetupStep::Done(self.finish(None, b, false)),
            (Prompt::OutputFile, Answer::Text(t)) => {
                let output = non_empty_string(t);
                SetupStep::Done(self.finish(output, false, false))
            },
            _ => {
                proof {
                    assert(false);
                }
                SetupStep::Ask(self.pending)
            },
        }
    }
}

/// The place of a question in the order the setup asks them.
pub open spec fn prompt_rank(p: Prompt) -> nat {
    match p {
        Prompt::Token => 0,
        Prompt::Action => 1,
        Prompt::ChatId => 2,
        Prompt::PollingMode => 3,
        Prompt::OptionalChatId => 4,
        Prompt::FileType => 5,
        Prompt::UseDateRange => 6,
        Prompt::AfterDate => 7,
        Prompt::BeforeDate => 8,
        Prompt::Parallel => 9,
        Prompt::SkipSame => 10,
        Prompt::DryRun => 11,
        Prompt::OutputFile => 12,
    }
}

/// The setup always ends: each answer either finishes it, stops it, or moves
/// on to a question later in the fixed order, so no question is asked twice
/// and at most thirteen are asked in all. The finished setup keeps the token
/// that was given.
pub proof fn lemma_setup_moves_forward(v: FlowView, a: Answer, next: FlowView, step: SetupStep)
    requires
        transition(v, a, next, step),
    ensures
        step matches SetupStep::Ask(p) ==> next.pending == p && prompt_rank(p) > prompt_rank(
            v.pending,
        ),
        step matches SetupStep::Done(r) ==> r.token@ == next.token,
        v.pending != Prompt::Token ==> next.token == v.token,
{
}

/// The items of the `FileType` menu, in the order shown.
pub open spec fn file_type_menu() -> Seq<Seq<char>> {
    seq![
        "All types"@,
        "PDF"@,
        "Image"@,
        "Video"@,
        "Audio"@,
        "Document"@,
        "Animation"@,
        "Voice"@,
    ]
}

/// ASCII lower case of `s`.
pub open spec fn ascii_lower(s: Seq<char>) -> Seq<char> {
    s.map_values(|c: char| if 'A' <= c <= 'Z' { ((c as u32) + 32) as char } else { c })
}

/// Choosing an item of the `FileType` menu filters by the kind that item
/// names: the first item ("All types") sets no filter, and each other item
/// selects the kind whose stored name is the item's label in lower case
/// ("Document" selects `document`).
pub proof fn lemma_file_type_menu_choice(i: usize)
    requires
        i < file_type_menu().len(),
    ensures
        i == 0 ==> filter_choice(i) is None,
        i > 0 ==> (filter_choice(i) matches Some(f) && filter_kind_name(f) == Some(
            ascii_lower(file_type_menu()[i as int]),
        )),
{
    reveal_strlit("All types");
    reveal_strlit("PDF");
    reveal_strlit("Image");
    reveal_strlit("Video");
    reveal_strlit("Audio");
    reveal_strlit("Document");
    reveal_strlit("Animation");
    reveal_strlit("Voice");
    reveal_strlit("pdf");
    reveal_strlit("image");
    reveal_strlit("video");
    reveal_strlit("audio");
    reveal_strlit("document");
    reveal_strlit("animation");
    reveal_strlit("voice");
    let m = file_type_menu();
    if i == 1 {
        assert(ascii_lower(m[1]) =~= "pdf"@);
    } else if i == 2 {
        assert(ascii_lower(m[2]) =~= "image"@);
    } else if i == 3 {
        assert(ascii_lower(m[3]) =~= "video"@);
    } else if i == 4 {
        assert(ascii_lower(m[4]) =~= "audio"@);
    } else if i == 5 {
        assert(ascii_lower(m[5]) =~= "document"@);
    } else if i == 6 {
        assert(ascii_lower(m[6]) =~= "animation"@);
    } else if i == 7 {
        assert(ascii_lower(m[7]) =~= "voice"@);
    }
}

} // verus!
