use zync::cli::{
    expect_value, parse_connect_config, parse_serve_config, run, Command, ServeConfig,
};

fn args(words: &[&str]) -> Vec<String> {
    words.iter().map(|word| word.to_string()).collect()
}

fn config(peer: &str, remote_bin: &str, ssh_bin: &str, interval_ms: u64) -> ServeConfig {
    ServeConfig {
        peer: peer.to_string(),
        remote_bin: remote_bin.to_string(),
        ssh_bin: ssh_bin.to_string(),
        interval_ms,
    }
}

fn refused(words: &[&str]) -> String {
    parse_serve_config(&args(words)).unwrap_err()
}

#[test]
fn a_peer_alone_suffices() {
    assert_eq!(
        parse_serve_config(&args(&["--peer", "user@other-mac"])),
        Ok(config("user@other-mac", "zync", "ssh", 750))
    );
}

#[test]
fn every_option_is_taken_and_the_last_of_each() {
    assert_eq!(
        parse_serve_config(&args(&[
            "--interval-ms",
            "100",
            "--ssh-bin",
            "/bin/ssh",
            "--remote-bin",
            "launchctl asuser 501 /Users/user/.cargo/bin/zync",
            "--peer",
            "a",
            "--peer",
            "b",
            "--interval-ms",
            "0",
        ])),
        Ok(config("b", "launchctl asuser 501 /Users/user/.cargo/bin/zync", "/bin/ssh", 0))
    );
    assert_eq!(
        parse_serve_config(&args(&["--peer", "--ssh-bin"])),
        Ok(config("--ssh-bin", "zync", "ssh", 750))
    );
}

#[test]
fn options_report_each_fault() {
    assert_eq!(refused(&[]), "--peer is required");
    assert_eq!(refused(&["--ssh-bin", "x"]), "--peer is required");
    assert_eq!(refused(&["--port", "1"]), "unknown option: --port");
    assert_eq!(refused(&["peer"]), "unknown option: peer");
    assert_eq!(refused(&["--peer"]), "--peer requires a value");
    assert_eq!(refused(&["--peer", "a", "--remote-bin"]), "--remote-bin requires a value");
    assert_eq!(refused(&["--peer", "a", "--ssh-bin"]), "--ssh-bin requires a value");
    assert_eq!(refused(&["--interval-ms"]), "--interval-ms requires a value");
    assert_eq!(
        refused(&["--interval-ms", "soon", "--port"]),
        "--interval-ms must be a positive integer"
    );
    assert_eq!(
        refused(&["--interval-ms", "18446744073709551616"]),
        "--interval-ms must be a positive integer"
    );
}

#[test]
fn connect_takes_the_peer_first() {
    let expected = Ok(config("ssh://user@other-mac:2222", "zync", "ssh", 500));
    assert_eq!(
        parse_connect_config(&args(&["ssh://user@other-mac:2222", "--interval-ms", "500"])),
        expected
    );
    assert_eq!(
        parse_serve_config(&args(&[
            "--peer",
            "ssh://user@other-mac:2222",
            "--interval-ms",
            "500"
        ])),
        expected
    );
    assert_eq!(
        parse_connect_config(&args(&["--peer", "home"])),
        Ok(config("home", "zync", "ssh", 750))
    );
    assert_eq!(parse_connect_config(&args(&[""])), Ok(config("", "zync", "ssh", 750)));
    assert_eq!(
        parse_connect_config(&[]).unwrap_err(),
        "connect requires a peer, for example: zync connect user@other-mac"
    );
    assert_eq!(
        parse_connect_config(&args(&["a", "b"])).unwrap_err(),
        "unknown option: b"
    );
}

#[test]
fn values_must_be_there() {
    let words = args(&["a", "b"]);
    assert_eq!(expect_value(&words, 1, "--x"), Ok("b"));
    assert_eq!(expect_value(&words, 2, "--x"), Err("--x requires a value".to_string()));
}

#[test]
fn commands_are_told_apart() {
    let home = || config("home", "zync", "ssh", 750);
    assert_eq!(run(&args(&["zync", "connect", "home"])), Ok(Command::Connect(home())));
    assert_eq!(run(&args(&["zync", "agent"])), Ok(Command::Agent));
    assert_eq!(run(&args(&["zync", "serve", "--peer", "home"])), Ok(Command::Serve(home())));
    assert_eq!(
        run(&args(&["zync", "send-once", "--peer", "home"])),
        Ok(Command::SendOnce(home()))
    );
    assert_eq!(run(&args(&["zync", "receive"])), Ok(Command::Receive));
    assert_eq!(run(&args(&["zync", "-h"])), Ok(Command::Usage));
    assert_eq!(run(&args(&["zync", "--help"])), Ok(Command::Usage));
    assert_eq!(run(&args(&["zync"])), Ok(Command::Usage));
    assert_eq!(run(&[]), Ok(Command::Usage));
    assert_eq!(run(&args(&["zync", "fly"])), Err("unknown command: fly".to_string()));
    assert_eq!(run(&args(&["zync", "serve"])), Err("--peer is required".to_string()));
    assert_eq!(
        run(&args(&["zync", "send-once", "x"])),
        Err("unknown option: x".to_string())
    );
    assert_eq!(
        run(&args(&["zync", "connect"])),
        Err("connect requires a peer, for example: zync connect user@other-mac".to_string())
    );
}

#[test]
fn options_may_come_in_any_order() {
    let options = [["--peer", "home"], ["--ssh-bin", "/bin/ssh"], ["--interval-ms", "5"]];
    for order in [[0, 1, 2], [2, 1, 0], [1, 2, 0], [2, 0, 1]] {
        let words: Vec<&str> = order.iter().flat_map(|&i| options[i]).collect();
        assert_eq!(parse_serve_config(&args(&words)), Ok(config("home", "zync", "/bin/ssh", 5)));
    }
}
