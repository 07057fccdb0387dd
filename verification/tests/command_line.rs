use utxo_node::cli::{Command, CLI};

fn parse(words: &[&str]) -> Command {
    let args: Vec<String> = words.iter().map(|w| w.to_string()).collect();
    CLI::new(&args).command()
}

#[test]
fn commands_without_arguments() {
    assert!(matches!(parse(&["node", "createwallet"]), Command::CreateWallet));
    assert!(matches!(parse(&["node", "listaddresses"]), Command::ListAddresses));
    assert!(matches!(parse(&["node", "printchain"]), Command::PrintChain));
    assert!(matches!(parse(&["node", "reindexutxo"]), Command::ReindexUtxo));
    assert!(matches!(parse(&["node", "startnode"]), Command::StartNode { miner: None }));
    assert!(matches!(parse(&["node", "createwallet", "extra"]), Command::CreateWallet));
}

#[test]
fn commands_with_an_address() {
    assert!(matches!(
        parse(&["node", "createblockchain", "-address", "A"]),
        Command::CreateBlockchain { address } if address == "A"
    ));
    assert!(matches!(
        parse(&["node", "getbalance", "-address", "B"]),
        Command::GetBalance { address } if address == "B"
    ));
    assert!(matches!(
        parse(&["node", "startnode", "-miner", "M"]),
        Command::StartNode { miner: Some(m) } if m == "M"
    ));
}

#[test]
fn send_takes_from_to_and_amount() {
    assert!(matches!(
        parse(&["node", "send", "-from", "F", "-to", "T", "-amount", "3"]),
        Command::Send { from, to, amount: 3 } if from == "F" && to == "T"
    ));
    assert!(matches!(
        parse(&["node", "send", "-from", "F", "-to", "T", "-amount", "-12"]),
        Command::Send { amount: -12, .. }
    ));
    assert!(matches!(
        parse(&["node", "send", "-from", "F", "-to", "T", "-amount", "2147483647"]),
        Command::Send { amount: i32::MAX, .. }
    ));
}

#[test]
fn anything_else_asks_for_the_usage() {
    let cases: &[&[&str]] = &[
        &[],
        &["node"],
        &["node", "help"],
        &["node", "createblockchain"],
        &["node", "createblockchain", "-address"],
        &["node", "createblockchain", "-addr", "A"],
        &["node", "getbalance", "A"],
        &["node", "getbalance", "-address"],
        &["node", "send"],
        &["node", "send", "-from", "F", "-to", "T", "-amount"],
        &["node", "send", "-from", "F", "-to", "T", "-amount", "three"],
        &["node", "send", "-from", "F", "-to", "T", "-amount", "2147483648"],
        &["node", "send", "-to", "T", "-from", "F", "-amount", "3"],
        &["node", "send", "-from", "F", "-to", "T", "amount", "3"],
        &["node", "startnode", "-miner"],
        &["node", "startnode", "M"],
        &["node", "Createwallet"],
    ];
    for words in cases {
        assert!(matches!(parse(words), Command::Usage), "{:?}", words);
    }
}

#[test]
fn usage_names_every_command() {
    let usage = CLI::usage();
    assert!(usage.starts_with("Usage:\n"));
    for name in [
        "createblockchain -address ADDRESS",
        "createwallet",
        "getbalance -address ADDRESS",
        "listaddresses",
        "printchain",
        "reindexutxo",
        "send -from FROM -to TO -amount AMOUNT",
        "startnode -miner ADDRESS",
    ] {
        assert!(usage.contains(name), "{}", name);
    }
    assert_eq!(usage.lines().count(), 9);
}
