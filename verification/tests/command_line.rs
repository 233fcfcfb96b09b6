//! Arguments, names and the files of new components.

use plasmoid::cli::{
    choose_node, ends_with, parse_send, parse_spawn, parse_start, subcommand, CliError, LoadItem,
    SpawnSpec, Subcommand,
};
use plasmoid::pid::NodeId;
use plasmoid::scaffold::{
    component_cargo_toml, component_lib_rs, component_wit, to_pascal_case, to_underscored,
    validate_name, NameError, WORKSPACE_TOML,
};

fn a_node() -> NodeId {
    NodeId::from_bytes(iroh::SecretKey::generate().public().as_bytes()).unwrap()
}

fn args(words: &[&str]) -> Vec<String> {
    words.iter().map(|w| w.to_string()).collect()
}

#[test]
fn commands_go_by_their_names() {
    for (words, want) in [
        (vec!["plasmoid", "new", "x"], Subcommand::New),
        (vec!["plasmoid", "component", "new", "x"], Subcommand::ComponentNew),
        (vec!["plasmoid", "component"], Subcommand::ComponentUsage),
        (vec!["plasmoid", "component", "old"], Subcommand::ComponentUsage),
        (vec!["plasmoid", "start"], Subcommand::Start),
        (vec!["plasmoid", "spawn"], Subcommand::Spawn),
        (vec!["plasmoid", "send"], Subcommand::Send),
        (vec!["plasmoid", "call"], Subcommand::CallIsSend),
        (vec!["plasmoid", "run"], Subcommand::RunIsStart),
        (vec!["plasmoid", "dance"], Subcommand::Unknown),
        (vec!["plasmoid"], Subcommand::Unknown),
        (vec![], Subcommand::Unknown),
    ] {
        assert_eq!(subcommand(&args(&words)), want, "{words:?}");
    }
}

#[test]
fn start_reads_its_options() {
    let node = a_node();
    let o = parse_start(&args(&[
        "echo.wasm",
        "--data-dir",
        "/tmp/x",
        "--peer",
        &node.to_hex(),
        "--load-path",
        "target/debug",
        "--spawn",
        "echo",
        "--name",
        "e",
        "--init",
        "1, 2",
        "--spawn",
        "ring",
        "--app",
        "plasmoid.toml",
        "ring.wasm",
    ]));
    assert_eq!(o.error, None);
    assert_eq!(o.data_dir.as_deref(), Some("/tmp/x"));
    assert_eq!(o.peers, vec![node]);
    assert_eq!(o.app.as_deref(), Some("plasmoid.toml"));
    assert_eq!(
        o.load,
        vec![
            LoadItem::File("echo.wasm".to_string()),
            LoadItem::Directory("target/debug".to_string()),
            LoadItem::File("ring.wasm".to_string()),
        ]
    );
    assert_eq!(
        o.spawns,
        vec![
            SpawnSpec {
                component: "echo".to_string(),
                name: Some("e".to_string()),
                init_args: "1, 2".to_string(),
            },
            SpawnSpec { component: "ring".to_string(), name: None, init_args: String::new() },
        ]
    );
}

#[test]
fn start_refuses_what_it_cannot_read() {
    for (words, want) in [
        (vec!["--data-dir"], CliError::DataDirNeedsDirectory),
        (vec!["--peer"], CliError::PeerNeedsNode),
        (vec!["--peer", "nope"], CliError::BadPeer("nope".to_string())),
        (vec!["--load-path"], CliError::LoadPathNeedsDirectory),
        (vec!["--app"], CliError::AppNeedsManifest),
        (vec!["--spawn"], CliError::SpawnNeedsComponent),
        (vec!["--spawn", "c", "--name"], CliError::NameNeedsValue),
        (vec!["--spawn", "c", "--init"], CliError::InitNeedsExpression),
        (vec!["a.wasm", "--name", "x"], CliError::Unexpected("--name".to_string())),
        (vec!["what"], CliError::Unexpected("what".to_string())),
    ] {
        assert_eq!(parse_start(&args(&words)).error, Some(want), "{words:?}");
    }
    // What came before is kept.
    let o = parse_start(&args(&["a.wasm", "what", "b.wasm"]));
    assert_eq!(o.load, vec![LoadItem::File("a.wasm".to_string())]);
}

#[test]
fn spawn_reads_its_options() {
    let node = a_node();
    let o = parse_spawn(&args(&["--node", &node.to_hex(), "echo", "--init", "x", "--name", "n"]))
        .ok()
        .unwrap();
    assert_eq!(o.node, Some(node));
    assert_eq!(
        o.spec,
        SpawnSpec {
            component: "echo".to_string(),
            name: Some("n".to_string()),
            init_args: "x".to_string(),
        }
    );
    let o = parse_spawn(&args(&["echo"])).ok().unwrap();
    assert_eq!(o.node, None);
    assert_eq!(o.spec.name, None);
}

#[test]
fn spawn_refuses_what_it_cannot_read() {
    let node = a_node().to_hex();
    for (words, want) in [
        (vec![], CliError::Usage),
        (vec!["--node"], CliError::NodeNeedsId),
        (vec!["--node", "nope"], CliError::BadNode("nope".to_string())),
        (vec!["--node", node.as_str()], CliError::MissingComponent),
        (vec!["echo", "--name"], CliError::NameNeedsValue),
        (vec!["echo", "--init"], CliError::InitNeedsExpression),
        (vec!["echo", "what"], CliError::Unexpected("what".to_string())),
    ] {
        assert_eq!(parse_spawn(&args(&words)).err(), Some(want), "{words:?}");
    }
}

#[test]
fn send_takes_a_node_first_or_none() {
    let node = a_node();
    let o = parse_send(&args(&[&node.to_hex(), "echo", "hi"])).ok().unwrap();
    assert_eq!((o.node, o.target.as_str(), o.message.as_str()), (Some(node), "echo", "hi"));
    let o = parse_send(&args(&["echo", "hi"])).ok().unwrap();
    assert_eq!((o.node, o.target.as_str(), o.message.as_str()), (None, "echo", "hi"));
    assert_eq!(parse_send(&args(&["echo"])).err(), Some(CliError::Usage));
    assert_eq!(parse_send(&args(&[&node.to_hex(), "echo"])).err(), Some(CliError::Usage));
}

#[test]
fn the_environment_names_a_node_where_the_arguments_do_not() {
    let (a, b) = (a_node(), a_node());
    assert_eq!(choose_node(Some(a), Some(&b.to_hex())), Ok(a));
    assert_eq!(choose_node(None, Some(&b.to_hex())), Ok(b));
    assert_eq!(choose_node(None, None), Err(CliError::NoNode));
    assert_eq!(
        choose_node(None, Some("x")),
        Err(CliError::BadEnvironmentNode("x".to_string()))
    );
}

#[test]
fn suffixes_are_told() {
    assert!(ends_with("a.wasm", ".wasm"));
    assert!(ends_with(".wasm", ".wasm"));
    assert!(!ends_with("wasm", ".wasm"));
    assert!(!ends_with("a.wasm.bak", ".wasm"));
}

#[test]
fn names_are_lower_case_words_with_hyphens() {
    assert_eq!(validate_name("order-service2"), Ok(()));
    assert_eq!(validate_name(""), Err(NameError::Empty));
    assert_eq!(validate_name("Order"), Err(NameError::BadStart));
    assert_eq!(validate_name("2nd"), Err(NameError::BadStart));
    assert_eq!(validate_name("-x"), Err(NameError::BadStart));
    assert_eq!(validate_name("a_b"), Err(NameError::BadCharacter));
    assert_eq!(validate_name("aB"), Err(NameError::BadCharacter));
    assert_eq!(validate_name("a-"), Err(NameError::TrailingHyphen));
}

#[test]
fn names_become_types_and_identifiers() {
    assert_eq!(to_pascal_case("order-service"), "OrderService");
    assert_eq!(to_pascal_case("echo"), "Echo");
    assert_eq!(to_pascal_case("a--b-"), "AB");
    assert_eq!(to_pascal_case(""), "");
    assert_eq!(to_underscored("order-service"), "order_service");
    assert_eq!(to_underscored("echo"), "echo");
}

#[test]
fn a_new_component_has_its_files() {
    assert_eq!(
        WORKSPACE_TOML,
        "[workspace]\nmembers = [\"components/*\"]\nresolver = \"2\"\n"
    );
    assert_eq!(
        component_cargo_toml("shop", "order-service"),
        r#"[package]
name = "order-service"
version = "0.1.0"
edition = "2021"

[lib]
crate-type = ["cdylib"]

[dependencies]
wit-bindgen-rt = "0.41"

[package.metadata.component]
package = "shop:order-service"

[package.metadata.component.target]
path = "../../wit/components/order-service"
world = "order_service"

[package.metadata.component.target.dependencies]
"plasmoid:runtime" = { path = "../../wit/components/order-service/deps/runtime" }
"#
    );
    assert_eq!(
        component_lib_rs("order-service"),
        r#"#[allow(warnings)]
mod bindings;

use bindings::plasmoid::runtime::host;

struct OrderService;

impl bindings::Guest for OrderService {
    fn start() -> Result<(), String> {
        host::log(host::LogLevel::Info, "order_service started");
        loop {
            match host::recv(None) {
                Some(host::Message::Data(data)) => {
                    if data == b"stop" {
                        return Ok(());
                    }
                    host::log(host::LogLevel::Info, &format!("order_service received {} bytes", data.len()));
                }
                Some(host::Message::Exit(_)) | Some(host::Message::Down(_)) => {}
                Some(host::Message::Tagged(_)) => {}
                Some(host::Message::SpawnReply(_)) => {}
                None => return Ok(()),
            }
        }
    }
}

bindings::export!(OrderService with_types_in bindings);
"#
    );
    assert_eq!(
        component_wit("shop", "order-service"),
        "package shop:order-service@0.1.0;\n\nworld order_service {\n    include plasmoid:runtime/particle@0.11.0;\n    export start: func() -> result<_, string>;\n}\n"
    );
}
