use tg_snatch::cli::FileTypeFilter;
use tg_snatch::ui::setup::{Answer, Prompt, SetupAction, SetupError, SetupFlow, SetupStep};

fn run(existing: Option<&str>, answers: Vec<Answer>) -> (Vec<Prompt>, SetupStep) {
    let (mut flow, first) = SetupFlow::start(existing);
    let mut asked = vec![first];
    let mut last = None;
    for a in answers {
        let step = flow.answer(a);
        match &step {
            SetupStep::Ask(p) => asked.push(*p),
            _ => {}
        }
        last = Some(step);
    }
    (asked, last.expect("at least one answer"))
}

fn text(s: &str) -> Answer {
    Answer::Text(s.to_string())
}

#[test]
fn info_with_a_known_token() {
    let (asked, step) = run(Some("1:abc"), vec![Answer::Choice(0)]);
    assert_eq!(asked, vec![Prompt::Action]);
    match step {
        SetupStep::Done(r) => {
            assert_eq!(r.token, "1:abc");
            assert!(matches!(r.action, SetupAction::Info));
        }
        _ => panic!("setup should be done"),
    }
}

#[test]
fn watch_asks_chat_and_mode() {
    let (asked, step) = run(
        None,
        vec![text("9:tok"), Answer::Choice(1), Answer::Number(-100123), Answer::Choice(1)],
    );
    assert_eq!(asked, vec![Prompt::Token, Prompt::Action, Prompt::ChatId, Prompt::PollingMode]);
    match step {
        SetupStep::Done(r) => {
            assert_eq!(r.token, "9:tok");
            match r.action {
                SetupAction::Watch { chat_id, continuous } => {
                    assert_eq!(chat_id, -100123);
                    assert!(!continuous);
                }
                _ => panic!("expected watch"),
            }
        }
        _ => panic!("setup should be done"),
    }
}

#[test]
fn list_without_dates() {
    let (asked, step) = run(
        Some("1:a"),
        vec![Answer::Choice(2), text(""), Answer::Choice(3), Answer::Confirm(false)],
    );
    assert_eq!(
        asked,
        vec![Prompt::Action, Prompt::OptionalChatId, Prompt::FileType, Prompt::UseDateRange]
    );
    match step {
        SetupStep::Done(r) => match r.action {
            SetupAction::List { chat_id, file_type, after, before } => {
                assert_eq!(chat_id, None);
                assert_eq!(file_type, Some(FileTypeFilter::Video));
                assert_eq!(after, None);
                assert_eq!(before, None);
            }
            _ => panic!("expected list"),
        },
        _ => panic!("setup should be done"),
    }
}

#[test]
fn download_with_all_settings() {
    let (asked, step) = run(
        Some("1:a"),
        vec![
            Answer::Choice(3),
            text("-42"),
            Answer::Choice(0),
            Answer::Confirm(true),
            text("2024-01-01"),
            text(""),
            Answer::Count(5),
            Answer::Confirm(false),
            Answer::Confirm(true),
        ],
    );
    assert_eq!(
        asked,
        vec![
            Prompt::Action,
            Prompt::OptionalChatId,
            Prompt::FileType,
            Prompt::UseDateRange,
            Prompt::AfterDate,
            Prompt::BeforeDate,
            Prompt::Parallel,
            Prompt::SkipSame,
            Prompt::DryRun,
        ]
    );
    match step {
        SetupStep::Done(r) => match r.action {
            SetupAction::Download {
                chat_id,
                file_type,
                interactive,
                parallel,
                skip_same,
                dry_run,
                after,
                before,
            } => {
                assert_eq!(chat_id, Some(-42));
                assert_eq!(file_type, None);
                assert!(interactive);
                assert_eq!(parallel, 5);
                assert!(!skip_same);
                assert!(dry_run);
                assert_eq!(after.as_deref(), Some("2024-01-01"));
                assert_eq!(before, None);
            }
            _ => panic!("expected download"),
        },
        _ => panic!("setup should be done"),
    }
}

#[test]
fn export_to_stdout_or_file() {
    let (asked, step) = run(
        Some("1:a"),
        vec![Answer::Choice(4), text("7"), Answer::Choice(1), text("")],
    );
    assert_eq!(
        asked,
        vec![Prompt::Action, Prompt::OptionalChatId, Prompt::FileType, Prompt::OutputFile]
    );
    match step {
        SetupStep::Done(r) => match r.action {
            SetupAction::Export { chat_id, file_type, output } => {
                assert_eq!(chat_id, Some(7));
                assert_eq!(file_type, Some(FileTypeFilter::Pdf));
                assert_eq!(output, None);
            }
            _ => panic!("expected export"),
        },
        _ => panic!("setup should be done"),
    }
    let (_, step) = run(
        Some("1:a"),
        vec![Answer::Choice(4), text(""), Answer::Choice(0), text("files.json")],
    );
    match step {
        SetupStep::Done(r) => match r.action {
            SetupAction::Export { output, .. } => assert_eq!(output.as_deref(), Some("files.json")),
            _ => panic!("expected export"),
        },
        _ => panic!("setup should be done"),
    }
}

#[test]
fn bad_optional_chat_id_stops_the_setup() {
    let (_, step) = run(Some("1:a"), vec![Answer::Choice(2), text("abc")]);
    match step {
        SetupStep::Failed(SetupError::InvalidChatId(t)) => assert_eq!(t, "abc"),
        _ => panic!("expected a refusal"),
    }
}

#[test]
fn each_question_comes_later_than_the_last() {
    let (asked, _) = run(
        Some("1:a"),
        vec![
            Answer::Choice(3),
            text(""),
            Answer::Choice(0),
            Answer::Confirm(false),
            Answer::Count(3),
            Answer::Confirm(true),
            Answer::Confirm(false),
        ],
    );
    let order = [
        Prompt::Token,
        Prompt::Action,
        Prompt::ChatId,
        Prompt::PollingMode,
        Prompt::OptionalChatId,
        Prompt::FileType,
        Prompt::UseDateRange,
        Prompt::AfterDate,
        Prompt::BeforeDate,
        Prompt::Parallel,
        Prompt::SkipSame,
        Prompt::DryRun,
        Prompt::OutputFile,
    ];
    let ranks: Vec<usize> =
        asked.iter().map(|p| order.iter().position(|q| q == p).unwrap()).collect();
    assert!(ranks.windows(2).all(|w| w[0] < w[1]));
}
