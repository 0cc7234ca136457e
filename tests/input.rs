use ogg_trimmer::commands::{
    get_file_extension_from_path, get_supported_container_type, output_file_name, parse_seconds,
    same_text,
    Command, SecondsInput,
};

#[test]
fn extension_after_last_dot() {
    assert_eq!(get_file_extension_from_path(&"audio.ogg".to_string()), "ogg");
    assert_eq!(get_file_extension_from_path(&"a.b.c.OGG".to_string()), "OGG");
    assert_eq!(get_file_extension_from_path(&"noext".to_string()), "noext");
    assert_eq!(get_file_extension_from_path(&"trailing.".to_string()), "");
    assert_eq!(get_file_extension_from_path(&String::new()), "");
    assert_eq!(get_file_extension_from_path(&"dir.d/ré.ögg".to_string()), "ögg");
}

#[test]
fn container_lookup_ignores_case() {
    assert!(get_supported_container_type("ogg").is_some());
    assert!(get_supported_container_type("OGG").is_some());
    assert!(get_supported_container_type("oGg").is_some());
    assert!(get_supported_container_type("mp3").is_none());
    assert!(get_supported_container_type("ogg ").is_none());
    assert!(get_supported_container_type("").is_none());
    assert_eq!(get_supported_container_type("Ogg").unwrap().extension(), "ogg");
}

#[test]
fn command_words() {
    assert_eq!(Command::parse("play"), Some(Command::Play));
    assert_eq!(Command::parse("save"), Some(Command::Save));
    assert_eq!(Command::parse("set_start"), Some(Command::SetStart));
    assert_eq!(Command::parse("set_end"), Some(Command::SetEnd));
    assert_eq!(Command::parse("quit"), Some(Command::Quit));
    assert_eq!(Command::parse("stop_audio"), Some(Command::StopAudio));
    assert_eq!(Command::parse("command_list"), Some(Command::CommandList));
    assert_eq!(Command::parse("set_source"), Some(Command::SetSource));
    assert_eq!(Command::parse("Play"), None);
    assert_eq!(Command::parse(""), None);
    assert_eq!(Command::parse("playx"), None);
}

#[test]
fn same_text_compares_characters() {
    assert!(same_text("abc", "abc"));
    assert!(!same_text("abc", "abd"));
    assert!(!same_text("ab", "abc"));
    assert!(same_text("", ""));
}

#[test]
fn seconds_prompt() {
    assert_eq!(parse_seconds("back"), SecondsInput::Back);
    assert_eq!(parse_seconds("10"), SecondsInput::Seconds(10_000_000));
    assert_eq!(parse_seconds("1.239"), SecondsInput::Seconds(1_239_000));
    assert_eq!(parse_seconds("0.5"), SecondsInput::Seconds(500_000));
    assert_eq!(parse_seconds(".5"), SecondsInput::Seconds(500_000));
    assert_eq!(parse_seconds("5."), SecondsInput::Seconds(5_000_000));
    assert_eq!(parse_seconds("0"), SecondsInput::Seconds(0));
    assert_eq!(parse_seconds("007.25"), SecondsInput::Seconds(7_250_000));
    assert_eq!(parse_seconds("1.1234567"), SecondsInput::Seconds(1_123_456));
    assert_eq!(
        parse_seconds("2.000000000000000000000000000000000000000000001"),
        SecondsInput::Seconds(2_000_000)
    );
    assert_eq!(parse_seconds("18446744073709.551615"), SecondsInput::Seconds(u64::MAX));
    assert_eq!(parse_seconds("18446744073709.551616"), SecondsInput::Invalid);
    assert_eq!(parse_seconds("99999999999999999999999"), SecondsInput::Invalid);
    assert_eq!(parse_seconds(""), SecondsInput::Invalid);
    assert_eq!(parse_seconds("."), SecondsInput::Invalid);
    assert_eq!(parse_seconds("-1"), SecondsInput::Invalid);
    assert_eq!(parse_seconds("1.2.3"), SecondsInput::Invalid);
    assert_eq!(parse_seconds("abc"), SecondsInput::Invalid);
    assert_eq!(parse_seconds("Back"), SecondsInput::Invalid);
    assert_eq!(parse_seconds("1e3"), SecondsInput::Invalid);
}

#[test]
fn saved_file_gets_container_extension() {
    assert_eq!(output_file_name(&"out".to_string()), "out.ogg");
    assert_eq!(output_file_name(&"out.ogg".to_string()), "out.ogg");
    assert_eq!(output_file_name(&"out.OGG".to_string()), "out.OGG");
    assert_eq!(output_file_name(&"take.2".to_string()), "take.2.ogg");
    assert_eq!(output_file_name(&String::new()), ".ogg");
    assert_eq!(output_file_name(&"ogg".to_string()), "ogg.ogg");
    assert_eq!(output_file_name(&"OGG".to_string()), "OGG.ogg");
    assert_eq!(output_file_name(&".ogg".to_string()), ".ogg");
}
