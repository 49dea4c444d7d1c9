//! The arguments of the commands.

use clarity_effects::options::{
    contract_effects_args, drain_common_opts, network_named, take_flag, try_mine_args,
    tx_effects_args, txid_effects_args, ConfigSource, OptsProblem, TryMineArgs, TryMineProblem,
};

fn parse_cli_command(s: &str) -> Vec<String> {
    s.split(' ').map(String::from).collect()
}

#[test]
fn test_drain_common_opts() {
    // Should find/remove no options
    let mut argv = parse_cli_command(
        "stacks-inspect try-mine --config my_config.toml /tmp/chainstate/mainnet",
    );
    let argv_init = argv.clone();
    let _opts = drain_common_opts(&mut argv, 0).unwrap();
    let opts = drain_common_opts(&mut argv, 1).unwrap();

    assert_eq!(argv, argv_init);
    assert!(opts.config.is_none());

    // Should find config opts and remove from vec
    let mut argv = parse_cli_command(
        "stacks-inspect --network mocknet --network mainnet try-mine /tmp/chainstate/mainnet",
    );
    let opts = drain_common_opts(&mut argv, 1).unwrap();
    let argv_expected = parse_cli_command("stacks-inspect try-mine /tmp/chainstate/mainnet");

    assert_eq!(argv, argv_expected);
    assert!(opts.config.is_some());
}

#[test]
fn the_last_configuration_counts() {
    let mut argv = parse_cli_command("x --network XENON --config a.toml cmd --network helium");
    let opts = drain_common_opts(&mut argv, 1).unwrap();
    assert_eq!(opts.config, Some(ConfigSource::File("a.toml".to_string())));
    assert_eq!(
        opts.named,
        [ConfigSource::Xenon, ConfigSource::File("a.toml".to_string())]
    );
    assert_eq!(argv, parse_cli_command("x cmd --network helium"));
    // Draining once more finds nothing.
    let again = drain_common_opts(&mut argv, 1).unwrap();
    assert_eq!(again.config, None);
}

#[test]
fn networks_are_named_in_any_case() {
    for (name, source) in [
        ("MainNet", ConfigSource::Mainnet),
        ("MAINNET", ConfigSource::Mainnet),
        ("HELIUM", ConfigSource::Helium),
        ("mocknet", ConfigSource::Mocknet),
        ("Xenon", ConfigSource::Xenon),
    ] {
        let mut argv = parse_cli_command(&format!("x --network {name}"));
        let opts = drain_common_opts(&mut argv, 1).unwrap();
        assert_eq!(opts.config, Some(source));
        assert_eq!(argv, ["x"]);
    }
    assert_eq!(network_named(&"MAINNET".to_string()), None);
}

#[test]
fn options_are_refused() {
    for (command, problem) in [
        (
            "x --network krypton",
            OptsProblem::UnknownNetwork("krypton".to_string()),
        ),
        (
            "x --network KRYPTON cmd",
            OptsProblem::UnknownNetwork("krypton".to_string()),
        ),
        (
            "x --network KRYPT\u{d6}N-1",
            OptsProblem::UnknownNetwork("krypt\u{f6}n-1".to_string()),
        ),
        ("x --json cmd", OptsProblem::Unrecognized("json".to_string())),
        ("x --", OptsProblem::Unrecognized("".to_string())),
        ("x --config", OptsProblem::MissingValue("config".to_string())),
        ("x --network", OptsProblem::MissingValue("network".to_string())),
        ("x a", OptsProblem::Unsplittable("a".to_string())),
        ("x \u{20ac}uro", OptsProblem::Unsplittable("\u{20ac}uro".to_string())),
    ] {
        let mut argv = parse_cli_command(command);
        let error = drain_common_opts(&mut argv, 1).unwrap_err();
        assert_eq!(error.problem, problem, "{command}");
        assert!(error.named.is_empty());
        assert_eq!(argv, parse_cli_command(command));
    }
    let mut argv = parse_cli_command("x --network mainnet --bad");
    let error = drain_common_opts(&mut argv, 1).unwrap_err();
    assert_eq!(error.named, [ConfigSource::Mainnet]);
}

#[test]
fn arguments_of_two_bytes_are_no_options() {
    for arg in ["cm", "\u{e9}", "-c", "\u{e9}t\u{e9}"] {
        let mut argv = vec!["x".to_string(), arg.to_string()];
        assert_eq!(drain_common_opts(&mut argv, 1).unwrap().config, None);
        assert_eq!(argv.len(), 2);
    }
    let mut argv = vec!["x".to_string()];
    assert_eq!(drain_common_opts(&mut argv, 1).unwrap().config, None);
}

#[test]
fn one_flag_is_taken() {
    let mut args = parse_cli_command("x --json db --json c");
    assert!(take_flag(&mut args, "--json"));
    assert_eq!(args, parse_cli_command("x db --json c"));
    assert!(!take_flag(&mut args, "--graph"));
    assert_eq!(args.len(), 4);
}

#[test]
fn effects_commands_are_read() {
    let args = contract_effects_args(&parse_cli_command("c --json db SP1.c"));
    assert!(args.json && !args.graph);
    assert_eq!(args.operands, Some(("db".to_string(), "SP1.c".to_string())));
    let args = contract_effects_args(&parse_cli_command("c db --json"));
    assert_eq!(args.operands, None);

    let args = tx_effects_args(&parse_cli_command("c db --graph 00ff"));
    assert!(!args.json && args.graph);
    assert_eq!(args.operands, Some(("db".to_string(), "00ff".to_string())));

    let args = txid_effects_args(&parse_cli_command("c db --block-id b0 --json t0 --graph"));
    let args = args.unwrap();
    assert_eq!(args.block_id, Some("b0".to_string()));
    assert!(args.rest.json && args.rest.graph);
    assert_eq!(
        args.rest.operands,
        Some(("db".to_string(), "t0".to_string()))
    );
    let args = txid_effects_args(&parse_cli_command("c db t0")).unwrap();
    assert_eq!(args.block_id, None);
    assert!(txid_effects_args(&parse_cli_command("c db t0 --block-id")).is_none());
}

#[test]
fn mining_arguments_are_read() {
    assert_eq!(
        try_mine_args(&parse_cli_command("c dir 10 +20")),
        Ok(TryMineArgs {
            db_path: "dir".to_string(),
            min_fee: 10,
            max_time: 20,
        })
    );
    assert_eq!(
        try_mine_args(&parse_cli_command("c dir")),
        Ok(TryMineArgs {
            db_path: "dir".to_string(),
            min_fee: u64::MAX,
            max_time: u64::MAX,
        })
    );
    assert_eq!(
        try_mine_args(&parse_cli_command("c")),
        Err(TryMineProblem::Usage)
    );
    assert_eq!(
        try_mine_args(&parse_cli_command("c dir x y")),
        Err(TryMineProblem::BadMinFee)
    );
    assert_eq!(
        try_mine_args(&parse_cli_command("c dir 1 18446744073709551616")),
        Err(TryMineProblem::BadMaxTime)
    );
}
