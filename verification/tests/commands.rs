use betrayal::commands::Command;
use betrayal::process::Filter;
use betrayal::BetrayalError;

#[test]
fn test_filter_command() {
    assert_eq!(
        "f e 44".parse::<Command<i32>>().unwrap(),
        Command::PerformFilter(Filter::IsEqual(44))
    )
}

#[test]
fn test_quit() {
    assert_eq!("q".parse::<Command<i32>>().unwrap(), Command::Quit,)
}

#[test]
fn test_write() {
    assert_eq!(
        "w 3 2137".parse::<Command<i32>>().unwrap(),
        Command::Write((3, 2137)),
    )
}

#[test]
fn test_refresh_on_empty_line() {
    assert_eq!("".parse::<Command<i32>>().unwrap(), Command::Refresh);
    assert_eq!("   ".parse::<Command<i32>>().unwrap(), Command::Refresh);
}

#[test]
fn test_help_words() {
    assert_eq!("h".parse::<Command<i32>>().unwrap(), Command::Help);
    assert_eq!("?".parse::<Command<i32>>().unwrap(), Command::Help);
    assert_eq!("help".parse::<Command<i32>>().unwrap(), Command::Help);
}

#[test]
fn test_any_filter() {
    assert_eq!(
        "f u".parse::<Command<i32>>().unwrap(),
        Command::PerformFilter(Filter::Any)
    );
}

#[test]
fn test_changed_by_filter() {
    assert_eq!(
        "f c -1".parse::<Command<i32>>().unwrap(),
        Command::PerformFilter(Filter::ChangedBy(-1))
    );
}

#[test]
fn test_range_filter() {
    assert_eq!(
        "f r 15 300".parse::<Command<i32>>().unwrap(),
        Command::PerformFilter(Filter::InRange((15, 300)))
    );
}

#[test]
fn test_add_address_and_range() {
    assert_eq!("a 7".parse::<Command<i32>>().unwrap(), Command::AddAddress(7));
    assert_eq!(
        "a 7 9".parse::<Command<i32>>().unwrap(),
        Command::AddAddressRange(7, 9)
    );
}

#[test]
fn test_value_box_command() {
    assert_eq!(
        "b 268435456 536870912 1 2 3".parse::<Command<i32>>().unwrap(),
        Command::FindValuesInBox(268435456, 536870912, vec![1, 2, 3])
    );
}

#[test]
fn test_pointer_map_commands() {
    assert_eq!(
        "p m u32 4096 8".parse::<Command<u8>>().unwrap(),
        Command::PointerMapU32(4096, 8)
    );
    assert_eq!(
        "p m u64 4096 8".parse::<Command<u8>>().unwrap(),
        Command::PointerMapU64(4096, 8)
    );
}

#[test]
fn test_keep_writing_command() {
    assert_eq!(
        "k 3 2137".parse::<Command<i32>>().unwrap(),
        Command::KeepWriting((3, 2137)),
    );
}

#[test]
fn test_bad_commands() {
    assert!(matches!(
        "zzz".parse::<Command<i32>>(),
        Err(BetrayalError::BadCommand(_))
    ));
    assert!(matches!(
        "f e notanumber".parse::<Command<i32>>(),
        Err(BetrayalError::BadCommand(_))
    ));
    assert!(matches!(
        "w 3".parse::<Command<i32>>(),
        Err(BetrayalError::BadCommand(_))
    ));
    // out of range for the session's kind
    assert!(matches!(
        "f e 9999999999999".parse::<Command<i32>>(),
        Err(BetrayalError::BadCommand(_))
    ));
}

#[test]
fn test_tokenize_splits_on_blanks() {
    let toks = betrayal::commands::tokenize("  f   e\t44 ");
    assert_eq!(toks, vec!["f".to_string(), "e".to_string(), "44".to_string()]);
}
