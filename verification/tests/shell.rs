use p2p_chat::command::parse_command;
use p2p_chat::command::Command;
use p2p_chat::logger::plain_line;
use p2p_chat::logger::LogLevel;

fn parse(line: &str) -> Command {
    let words: Vec<&str> = line.split_whitespace().collect();
    parse_command(&words)
}

#[test]
fn line_without_words_asks_for_nothing() {
    assert_eq!(parse(""), Command::Nothing);
    assert_eq!(parse("   \t \n"), Command::Nothing);
    assert_eq!(parse_command(&[]), Command::Nothing);
}

#[test]
fn commands_go_by_full_name_and_by_letter() {
    assert_eq!(parse("history"), Command::History);
    assert_eq!(parse("h"), Command::History);
    assert_eq!(parse("peers"), Command::Peers);
    assert_eq!(parse("p"), Command::Peers);
    assert_eq!(parse("status"), Command::Status);
    assert_eq!(parse("s"), Command::Status);
    assert_eq!(parse("help"), Command::Help);
    assert_eq!(parse("?"), Command::Help);
    assert_eq!(parse("quit"), Command::Quit);
    assert_eq!(parse("q"), Command::Quit);
    assert_eq!(parse("quit now please"), Command::Quit);
    assert_eq!(parse("  h  "), Command::History);
}

#[test]
fn chat_message_is_the_words_with_single_spaces() {
    assert_eq!(parse("chat hello"), Command::Chat("hello".to_string()));
    assert_eq!(parse("c hello world"), Command::Chat("hello world".to_string()));
    assert_eq!(
        parse("chat   a  b\tc   "),
        Command::Chat("a b c".to_string())
    );
    assert_eq!(
        parse_command(&["chat", "one", "two", "three", "four"]),
        Command::Chat("one two three four".to_string())
    );
    assert_eq!(parse("chat chat"), Command::Chat("chat".to_string()));
    assert_eq!(parse("chat olá é"), Command::Chat("olá é".to_string()));
}

#[test]
fn commands_that_lack_their_argument_ask_for_usage() {
    assert_eq!(parse("chat"), Command::ChatUsage);
    assert_eq!(parse("c"), Command::ChatUsage);
    assert_eq!(parse("addpeer"), Command::AddPeerUsage);
    assert_eq!(parse("a"), Command::AddPeerUsage);
    assert_eq!(parse("filechat"), Command::FileChatUsage);
    assert_eq!(parse("f"), Command::FileChatUsage);
}

#[test]
fn address_and_path_are_the_first_argument() {
    assert_eq!(parse("addpeer 10.0.0.1"), Command::AddPeer("10.0.0.1".to_string()));
    assert_eq!(parse("a example.org extra"), Command::AddPeer("example.org".to_string()));
    assert_eq!(parse("filechat notes.txt"), Command::FileChat("notes.txt".to_string()));
    assert_eq!(parse("f a.txt b.txt"), Command::FileChat("a.txt".to_string()));
}

#[test]
fn other_first_words_are_unknown() {
    assert_eq!(parse("chats hi"), Command::Unknown("chats".to_string()));
    assert_eq!(parse("Chat hi"), Command::Unknown("Chat".to_string()));
    assert_eq!(parse("cha"), Command::Unknown("cha".to_string()));
    assert_eq!(parse("x"), Command::Unknown("x".to_string()));
    assert_eq!(parse("qu"), Command::Unknown("qu".to_string()));
    assert_eq!(parse("ç"), Command::Unknown("ç".to_string()));
    assert_eq!(parse("helpme"), Command::Unknown("helpme".to_string()));
}

#[test]
fn levels_are_ordered_from_debug_to_off() {
    let levels = [
        LogLevel::Debug,
        LogLevel::Info,
        LogLevel::Warn,
        LogLevel::Error,
        LogLevel::Fatal,
        LogLevel::Off,
    ];
    for (rank, level) in levels.iter().enumerate() {
        assert_eq!(level.severity(), rank);
        assert_eq!(LogLevel::from_severity(rank), *level);
    }
    assert_eq!(LogLevel::from_severity(6), LogLevel::Off);
    assert_eq!(LogLevel::from_severity(usize::MAX), LogLevel::Off);
}

#[test]
fn line_passes_unless_it_is_below_the_threshold() {
    assert!(LogLevel::Info.passes(LogLevel::Info));
    assert!(LogLevel::Warn.passes(LogLevel::Info));
    assert!(LogLevel::Fatal.passes(LogLevel::Debug));
    assert!(!LogLevel::Debug.passes(LogLevel::Info));
    assert!(!LogLevel::Error.passes(LogLevel::Fatal));
    assert!(!LogLevel::Fatal.passes(LogLevel::Off));
    assert!(!LogLevel::Debug.passes(LogLevel::Off));
}

#[test]
fn labels_name_the_levels() {
    assert_eq!(LogLevel::Debug.label(), "DEBUG");
    assert_eq!(LogLevel::Info.label(), "INFO");
    assert_eq!(LogLevel::Warn.label(), "WARN");
    assert_eq!(LogLevel::Error.label(), "ERROR");
    assert_eq!(LogLevel::Fatal.label(), "FATAL");
    assert_eq!(LogLevel::Off.label(), "OFF");
}

#[test]
fn plain_line_is_time_level_message() {
    assert_eq!(
        plain_line("2024-01-02T03:04:05Z ", LogLevel::Warn, "disk is full"),
        "2024-01-02T03:04:05Z [WARN] disk is full\n"
    );
    assert_eq!(plain_line("", LogLevel::Info, "started"), "[INFO] started\n");
    assert_eq!(plain_line("", LogLevel::Fatal, ""), "[FATAL] \n");
}
