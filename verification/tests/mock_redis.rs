use bullrs::mock::redis::{MockCommandError, MockRedisClient};

#[test]
fn mock_script_load_answers_md5_hash() {
    let mut client = MockRedisClient::new();
    assert_eq!(client.script_load("abc"), "900150983cd24fb0d6963f7d28e17f72");
    let mut conn = client.get_mock_connection();
    let reply = conn.execute_command("script", &["load", "abc"]).unwrap();
    assert_eq!(reply, b"900150983cd24fb0d6963f7d28e17f72".to_vec());
}

#[test]
fn mock_rejects_other_commands() {
    let client = MockRedisClient::new();
    let mut conn = client.get_mock_connection();
    assert_eq!(conn.execute_command("GET", &["k"]), Err(MockCommandError::UnsupportedCommand));
    assert_eq!(conn.execute_command("SCRIPT", &[]), Err(MockCommandError::InvalidScriptCommand));
    assert_eq!(conn.execute_command("SCRIPT", &["FLUSH"]), Err(MockCommandError::UnsupportedScriptSubcommand));
    assert_eq!(conn.execute_command("SCRIPT", &["LOAD"]), Err(MockCommandError::MissingScriptArgument));
    assert_eq!(MockCommandError::MissingScriptArgument.message(), "Missing script argument");
    assert_eq!(MockCommandError::UnsupportedCommand.message(), "Unsupported command");
}

#[test]
fn loads_through_the_client_reach_its_table() {
    let mut client = MockRedisClient::new();
    let reply = client.execute_command("SCRIPT", &["LOAD", "return 1"]).unwrap();
    let hash = client.script_load("return 1");
    assert_eq!(reply, hash.into_bytes());
}
