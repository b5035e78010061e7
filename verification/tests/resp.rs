use bytes::Bytes;
use halloc::resp::{
    classify_input, convert_cmd_to_resp_frames, convert_resp_frames_to_bytes,
    convert_string_to_cmd, handle_get_client, match_datatype_to_cmd, split_words, ClientInput,
    Command, CommandName, Encode, RespClient, RespDataType, RespError, RespFrames,
};

fn encode(cmd: Command) -> Vec<u8> {
    let frames = convert_cmd_to_resp_frames(cmd);
    convert_resp_frames_to_bytes(&frames).to_vec()
}

#[test]
fn datatype_bytes_map_to_types() {
    assert_eq!(match_datatype_to_cmd(b'+'), Some(RespDataType::SimpleString));
    assert_eq!(match_datatype_to_cmd(b':'), Some(RespDataType::Integer));
    assert_eq!(match_datatype_to_cmd(b'$'), Some(RespDataType::BulkString));
    assert_eq!(match_datatype_to_cmd(b'*'), Some(RespDataType::Array));
    assert_eq!(match_datatype_to_cmd(b'-'), Some(RespDataType::Error));
    assert_eq!(match_datatype_to_cmd(b'x'), None);
}

#[test]
fn split_words_on_unicode_white_space() {
    let line = "  GET\tkey\u{00A0}x\u{3000}y \u{2028}";
    let words = split_words(line.as_bytes());
    assert_eq!(words, vec![b"GET".to_vec(), b"key".to_vec(), b"x".to_vec(), b"y".to_vec()]);
    let expected: Vec<Vec<u8>> = line.split_whitespace().map(|w| w.as_bytes().to_vec()).collect();
    assert_eq!(words, expected);
    assert!(split_words(b"   \n ").is_empty());
    assert_eq!(split_words("h\u{00E9}llo w\u{2019}s".as_bytes()).len(), 2);
}

#[test]
fn parses_commands() {
    assert_eq!(convert_string_to_cmd("GET key"), Ok(Command::GET(b"key".to_vec())));
    assert_eq!(convert_string_to_cmd("  get   k2  extra"), Ok(Command::GET(b"k2".to_vec())));
    assert_eq!(
        convert_string_to_cmd("SET a b"),
        Ok(Command::SET(b"a".to_vec(), b"b".to_vec()))
    );
    assert_eq!(convert_string_to_cmd("del a"), Ok(Command::DEL(b"a".to_vec())));
    assert_eq!(convert_string_to_cmd("PING"), Ok(Command::PING));
    assert_eq!(convert_string_to_cmd("ping me"), Ok(Command::PING));
}

#[test]
fn rejects_bad_command_lines() {
    assert_eq!(convert_string_to_cmd(""), Err(RespError::InvalidArgLength));
    assert_eq!(convert_string_to_cmd("   "), Err(RespError::InvalidArgLength));
    assert_eq!(convert_string_to_cmd("GET"), Err(RespError::InvalidArgLength));
    assert_eq!(convert_string_to_cmd("SET k"), Err(RespError::InvalidArgLength));
    assert_eq!(convert_string_to_cmd("DEL"), Err(RespError::InvalidArgLength));
    assert_eq!(convert_string_to_cmd("Get k"), Err(RespError::UnknownCommand));
    assert_eq!(convert_string_to_cmd("FLUSH"), Err(RespError::UnknownCommand));
}

#[test]
fn classifies_client_lines() {
    assert_eq!(classify_input(" \t"), ClientInput::Empty);
    assert_eq!(classify_input("SET k"), ClientInput::MissingArgs(CommandName::SetCmd));
    assert_eq!(classify_input("get"), ClientInput::MissingArgs(CommandName::GetCmd));
    assert_eq!(classify_input("nope x"), ClientInput::Unknown(b"nope".to_vec()));
    assert_eq!(classify_input("PING"), ClientInput::Ready(Command::PING));
}

#[test]
fn command_frames_are_bulk_strings() {
    let frames = convert_cmd_to_resp_frames(Command::SET(b"k".to_vec(), b"value".to_vec()));
    assert_eq!(frames.len(), 3);
    match &frames[2] {
        RespFrames::BulkString(n, b) => {
            assert_eq!(*n, 5);
            assert_eq!(&b[..], b"value");
        }
        _ => panic!("expected a bulk string"),
    }
}

#[test]
fn encodes_commands_as_resp_bytes() {
    assert_eq!(encode(Command::GET(b"key".to_vec())), b"$3\r\nget\r\n$3\r\nkey\r\n".to_vec());
    assert_eq!(
        encode(Command::SET(b"k".to_vec(), b"0123456789ab".to_vec())),
        b"$3\r\nset\r\n$1\r\nk\r\n$12\r\n0123456789ab\r\n".to_vec()
    );
    assert_eq!(encode(Command::DEL(b"gone".to_vec())), b"$4\r\ngone\r\n".to_vec());
    assert_eq!(encode(Command::PING), b"$4\r\nping\r\n".to_vec());
}

#[test]
fn encodes_given_length_field() {
    let frames = vec![
        RespFrames::BulkString(0, Bytes::new()),
        RespFrames::BulkString(1234567, Bytes::from_static(b"ab")),
    ];
    assert_eq!(
        convert_resp_frames_to_bytes(&frames).to_vec(),
        b"$0\r\n\r\n$1234567\r\nab\r\n".to_vec()
    );
    assert!(convert_resp_frames_to_bytes(&[]).is_empty());
}

#[test]
fn get_handler_accepts_only_get() {
    assert_eq!(handle_get_client(Command::GET(b"a".to_vec())).unwrap().len(), 2);
    assert_eq!(handle_get_client(Command::PING).unwrap_err(), RespError::UnexpectedCommand);
}

#[test]
fn encode_trait_runs_the_codec() {
    let cmd = <RespClient as Encode>::convert_string_to_cmd("DEL key").unwrap();
    assert_eq!(cmd, Command::DEL(b"key".to_vec()));
    let frames = <RespClient as Encode>::convert_cmd_to_resp_frames(cmd.clone());
    assert_eq!(<RespClient as Encode>::convert_resp_frames_to_bytes(&frames).to_vec(), b"$3\r\nkey\r\n".to_vec());
    assert_eq!(
        <RespClient as Encode>::handle_get_client(cmd.clone()).unwrap_err(),
        RespError::UnexpectedCommand
    );
    <RespClient as Encode>::handle_set_client(cmd.clone());
    <RespClient as Encode>::handle_del_client(cmd);
    <RespClient as Encode>::handle_ping_client();
    assert_eq!(
        <RespClient as Encode>::convert_string_to_cmd("SET k"),
        Err(RespError::InvalidArgLength)
    );
}
