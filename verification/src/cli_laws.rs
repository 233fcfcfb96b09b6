//! What command lines are read as, option by option.

use crate::cli;
use crate::cli::{CliErrorView, LoadView, OptionsView, SpawnView, StartView};
use crate::pid::NodeId;
use vstd::prelude::*;

verus! {

/// Two options as read, but for where they end.
pub open spec fn later(o: OptionsView, by_words: int) -> OptionsView {
    OptionsView { next: o.next + by_words, ..o }
}

proof fn lemma_options_shift(
    front: Seq<Seq<char>>,
    rest: Seq<Seq<char>>,
    at: int,
    name: Option<Seq<char>>,
    init_args: Seq<char>,
)
    requires
        0 <= at <= rest.len(),
    ensures
        cli::spawn_options(front + rest, front.len() + at, name, init_args) == later(
            cli::spawn_options(rest, at, name, init_args),
            front.len() as int,
        ),
    decreases rest.len() - at,
{
    let all = front + rest;
    let n = front.len() as int;
    if at < rest.len() {
        assert(all[n + at] == rest[at]);
        if at + 1 < rest.len() {
            assert(all[n + at + 1] == rest[at + 1]);
            lemma_options_shift(front, rest, at + 2, Some(rest[at + 1]), init_args);
            lemma_options_shift(front, rest, at + 2, name, rest[at + 1]);
        }
    }
}

/// The options of a spawn are read pair by pair: a name and arguments, the last of each counting,
/// up to the first word that is neither. An option without its value is an error.
pub proof fn law_spawn_options_are_read_in_pairs(
    rest: Seq<Seq<char>>,
    value: Seq<char>,
    name: Option<Seq<char>>,
    init_args: Seq<char>,
)
    ensures
        cli::spawn_options(seq!["--name"@, value] + rest, 0, name, init_args) == later(
            cli::spawn_options(rest, 0, Some(value), init_args),
            2,
        ),
        cli::spawn_options(seq!["--init"@, value] + rest, 0, name, init_args) == later(
            cli::spawn_options(rest, 0, name, value),
            2,
        ),
        cli::spawn_options(seq!["--name"@], 0, name, init_args).error == Some(
            CliErrorView::NameNeedsValue,
        ),
        cli::spawn_options(seq!["--init"@], 0, name, init_args).error == Some(
            CliErrorView::InitNeedsExpression,
        ),
        rest.len() == 0 || (rest[0] != "--name"@ && rest[0] != "--init"@) ==> cli::spawn_options(
            rest,
            0,
            name,
            init_args,
        ) == (OptionsView { name, init_args, next: 0, error: None }),
{
    reveal_strlit("--name");
    reveal_strlit("--init");
    assert("--name"@[2] != "--init"@[2]);
    let by_name = seq!["--name"@, value];
    let by_init = seq!["--init"@, value];
    assert((by_name + rest)[0] == "--name"@);
    assert((by_name + rest)[1] == value);
    assert((by_init + rest)[0] == "--init"@);
    assert((by_init + rest)[1] == value);
    lemma_options_shift(by_name, rest, 0, Some(value), init_args);
    lemma_options_shift(by_init, rest, 0, name, value);
}

proof fn lemma_read_shift(v: StartView, front: Seq<Seq<char>>, rest: Seq<Seq<char>>, at: int)
    requires
        0 <= at <= rest.len(),
    ensures
        v.read(front + rest, front.len() + at) == v.read(rest, at),
    decreases rest.len() - at,
{
    let all = front + rest;
    let n = front.len() as int;
    if at < rest.len() {
        let word = rest[at];
        assert(all[n + at] == word);
        if at + 1 < rest.len() {
            let value = rest[at + 1];
            assert(all[n + at + 1] == value);
            lemma_read_shift(StartView { data_dir: Some(value), ..v }, front, rest, at + 2);
            lemma_read_shift(
                StartView { load: v.load.push(LoadView::Directory(value)), ..v },
                front,
                rest,
                at + 2,
            );
            lemma_read_shift(StartView { app: Some(value), ..v }, front, rest, at + 2);
            if let Some(bytes) = cli::node_in(value) {
                lemma_read_shift(
                    StartView {
                        peers: v.peers.push(choose|k: NodeId| #[trigger] k.bytes() == bytes),
                        ..v
                    },
                    front,
                    rest,
                    at + 2,
                );
            }
            lemma_options_shift(front, rest, at + 2, None, Seq::empty());
            cli::lemma_options_end(rest, at + 2, None, Seq::empty());
            cli::lemma_options_end(all, n + at + 2, None, Seq::empty());
            let o = cli::spawn_options(rest, at + 2, None, Seq::empty());
            lemma_read_shift(
                StartView {
                    spawns: v.spawns.push(
                        SpawnView { component: value, name: o.name, init_args: o.init_args },
                    ),
                    ..v
                },
                front,
                rest,
                o.next,
            );
        }
        lemma_read_shift(
            StartView { load: v.load.push(LoadView::File(word)), ..v },
            front,
            rest,
            at + 1,
        );
    }
}

/// Whether a word is one of the options that start a node.
pub open spec fn is_start_option(w: Seq<char>) -> bool {
    w == "--data-dir"@ || w == "--peer"@ || w == "--load-path"@ || w == "--app"@ || w == "--spawn"@
}

proof fn lemma_words_differ()
    ensures
        "--data-dir"@ != "--peer"@,
        "--data-dir"@ != "--load-path"@,
        "--data-dir"@ != "--app"@,
        "--data-dir"@ != "--spawn"@,
        "--peer"@ != "--load-path"@,
        "--peer"@ != "--app"@,
        "--peer"@ != "--spawn"@,
        "--load-path"@ != "--app"@,
        "--load-path"@ != "--spawn"@,
        "--app"@ != "--spawn"@,
{
    reveal_strlit("--data-dir");
    reveal_strlit("--peer");
    reveal_strlit("--load-path");
    reveal_strlit("--app");
    reveal_strlit("--spawn");
    assert("--data-dir"@.len() == 10);
    assert("--peer"@.len() == 6);
    assert("--load-path"@.len() == 11);
    assert("--app"@.len() == 5);
    assert("--spawn"@.len() == 7);
}

/// The options that start a node are read one by one, each with its value, in the order in which
/// they stand: a data directory and a manifest, the last of each counting; directories and files
/// to load, in their order. The rest is read as if it stood alone.
pub proof fn law_start_options_are_read_one_by_one(
    v: StartView,
    rest: Seq<Seq<char>>,
    value: Seq<char>,
)
    ensures
        v.read(Seq::empty(), 0) == v,
        v.read(seq!["--data-dir"@, value] + rest, 0) == (StartView {
            data_dir: Some(value),
            ..v
        }).read(rest, 0),
        v.read(seq!["--load-path"@, value] + rest, 0) == (StartView {
            load: v.load.push(LoadView::Directory(value)),
            ..v
        }).read(rest, 0),
        v.read(seq!["--app"@, value] + rest, 0) == (StartView { app: Some(value), ..v }).read(
            rest,
            0,
        ),
        !is_start_option(value) && cli::has_suffix(value, ".wasm"@) ==> v.read(
            seq![value] + rest,
            0,
        ) == (StartView { load: v.load.push(LoadView::File(value)), ..v }).read(rest, 0),
        !is_start_option(value) && !cli::has_suffix(value, ".wasm"@) ==> v.read(
            seq![value] + rest,
            0,
        ) == v.failed(CliErrorView::Unexpected(value)),
{
    lemma_words_differ();
    let dir = seq!["--data-dir"@, value];
    let load = seq!["--load-path"@, value];
    let manifest = seq!["--app"@, value];
    let file = seq![value];
    assert((dir + rest)[0] == "--data-dir"@ && (dir + rest)[1] == value);
    assert((load + rest)[0] == "--load-path"@ && (load + rest)[1] == value);
    assert((manifest + rest)[0] == "--app"@ && (manifest + rest)[1] == value);
    assert((file + rest)[0] == value);
    lemma_read_shift(StartView { data_dir: Some(value), ..v }, dir, rest, 0);
    lemma_read_shift(
        StartView { load: v.load.push(LoadView::Directory(value)), ..v },
        load,
        rest,
        0,
    );
    lemma_read_shift(StartView { app: Some(value), ..v }, manifest, rest, 0);
    lemma_read_shift(StartView { load: v.load.push(LoadView::File(value)), ..v }, file, rest, 0);
}

/// A peer is taken in, after the others, where its value is a node, and is an error where it is
/// not.
pub proof fn law_peers_are_read_in_order(v: StartView, rest: Seq<Seq<char>>, value: Seq<char>, n: NodeId)
    ensures
        cli::node_in(value) == Some(n.bytes()) ==> v.read(seq!["--peer"@, value] + rest, 0)
            == (StartView { peers: v.peers.push(n), ..v }).read(rest, 0),
        cli::node_in(value) is None ==> v.read(seq!["--peer"@, value] + rest, 0) == v.failed(
            CliErrorView::BadPeer(value),
        ),
{
    broadcast use crate::pid::lemma_node_bytes;

    lemma_words_differ();
    let peer = seq!["--peer"@, value];
    assert((peer + rest)[0] == "--peer"@ && (peer + rest)[1] == value);
    if cli::node_in(value) == Some(n.bytes()) {
        let k = choose|k: NodeId| #[trigger] k.bytes() == n.bytes();
        assert(n.bytes() == n.bytes());
        assert(k.bytes() == n.bytes());
        assert(k == n);
        lemma_read_shift(StartView { peers: v.peers.push(n), ..v }, peer, rest, 0);
    }
}

/// A spawn is taken in, after the others, with its component and the options that follow it; what
/// follows those is read as if it stood alone.
pub proof fn law_spawns_are_read_in_order(v: StartView, rest: Seq<Seq<char>>, component: Seq<char>)
    ensures
        ({
            let o = cli::spawn_options(rest, 0, None, Seq::empty());
            let read = v.read(seq!["--spawn"@, component] + rest, 0);
            &&& o.error matches Some(e) ==> read == v.failed(e)
            &&& o.error is None ==> read == (StartView {
                spawns: v.spawns.push(
                    SpawnView { component, name: o.name, init_args: o.init_args },
                ),
                ..v
            }).read(rest.skip(o.next), 0)
        }),
{
    lemma_words_differ();
    let spawn = seq!["--spawn"@, component];
    let all = spawn + rest;
    assert(all[0] == "--spawn"@ && all[1] == component);
    lemma_options_shift(spawn, rest, 0, None, Seq::empty());
    cli::lemma_options_end(rest, 0, None, Seq::empty());
    let o = cli::spawn_options(rest, 0, None, Seq::empty());
    let w = StartView {
        spawns: v.spawns.push(SpawnView { component, name: o.name, init_args: o.init_args }),
        ..v
    };
    let front = all.take(2 + o.next);
    let tail = rest.skip(o.next);
    assert(all =~= front + tail);
    lemma_read_shift(w, front, tail, 0);
}

/// An option without its value is an error of its own.
pub proof fn law_options_need_their_values(v: StartView)
    ensures
        v.read(seq!["--data-dir"@], 0) == v.failed(CliErrorView::DataDirNeedsDirectory),
        v.read(seq!["--peer"@], 0) == v.failed(CliErrorView::PeerNeedsNode),
        v.read(seq!["--load-path"@], 0) == v.failed(CliErrorView::LoadPathNeedsDirectory),
        v.read(seq!["--app"@], 0) == v.failed(CliErrorView::AppNeedsManifest),
        v.read(seq!["--spawn"@], 0) == v.failed(CliErrorView::SpawnNeedsComponent),
{
    lemma_words_differ();
}

/// A spawn that is asked for by itself names its component and then its options, and nothing
/// more. Where a node comes first, it is asked of that node, and is otherwise read in the same
/// way.
pub proof fn law_spawn_lines_are_read(rest: Seq<Seq<char>>, component: Seq<char>, id: Seq<char>)
    requires
        component != "--node"@,
    ensures
        ({
            let o = cli::spawn_options(rest, 0, None, Seq::empty());
            let line = seq![component] + rest;
            let here = cli::spawn_asked(line);
            let there = cli::spawn_asked(seq!["--node"@, id] + line);
            &&& here is Ok <==> o.error is None && o.next == rest.len()
            &&& here matches Ok((node, spec)) ==> node is None && spec == (SpawnView {
                component,
                name: o.name,
                init_args: o.init_args,
            })
            &&& o.error matches Some(e) ==> here == Err::<(Option<Seq<u8>>, SpawnView), CliErrorView>(
                e,
            )
            &&& o.error is None && o.next < rest.len() ==> here == Err::<
                (Option<Seq<u8>>, SpawnView),
                CliErrorView,
            >(CliErrorView::Unexpected(rest[o.next]))
            &&& cli::node_in(id) is None ==> there == Err::<
                (Option<Seq<u8>>, SpawnView),
                CliErrorView,
            >(CliErrorView::BadNode(id))
            &&& cli::node_in(id) matches Some(b) ==> match here {
                Ok((_, spec)) => there == Ok::<(Option<Seq<u8>>, SpawnView), CliErrorView>(
                    (Some(b), spec),
                ),
                Err(e) => there == Err::<(Option<Seq<u8>>, SpawnView), CliErrorView>(e),
            }
        }),
{
    let line = seq![component] + rest;
    let asked = seq!["--node"@, id];
    let all = asked + line;
    let o = cli::spawn_options(rest, 0, None, Seq::empty());
    cli::lemma_options_end(rest, 0, None, Seq::empty());
    assert(line[0] == component);
    assert(all[0] == "--node"@ && all[1] == id && all[2] == component);
    lemma_options_shift(seq![component], rest, 0, None, Seq::empty());
    assert(all =~= seq!["--node"@, id, component] + rest);
    lemma_options_shift(seq!["--node"@, id, component], rest, 0, None, Seq::empty());
    if o.next < rest.len() {
        assert(line[o.next + 1] == rest[o.next]);
        assert(all[o.next + 3] == rest[o.next]);
    }
}

/// A spawn that names no component is an error, and so is a node without its id.
pub proof fn law_spawn_lines_need_a_component(id: Seq<char>)
    ensures
        cli::spawn_asked(Seq::empty()) is Err,
        cli::spawn_asked(seq!["--node"@]) == Err::<(Option<Seq<u8>>, SpawnView), CliErrorView>(
            CliErrorView::NodeNeedsId,
        ),
        cli::node_in(id) is Some ==> cli::spawn_asked(seq!["--node"@, id]) == Err::<
            (Option<Seq<u8>>, SpawnView),
            CliErrorView,
        >(CliErrorView::MissingComponent),
{
}

/// The word after the program's own names the command, and no two words name the same one.
pub proof fn law_words_name_commands(args: Seq<Seq<char>>)
    requires
        args.len() >= 2,
    ensures
        ({
            let c = cli::named_command(args);
            &&& c is New <==> args[1] == "new"@
            &&& c is Start <==> args[1] == "start"@
            &&& c is Spawn <==> args[1] == "spawn"@
            &&& c is Send <==> args[1] == "send"@
            &&& c is CallIsSend <==> args[1] == "call"@
            &&& c is RunIsStart <==> args[1] == "run"@
            &&& c is ComponentNew <==> args[1] == "component"@ && args.len() > 2 && args[2]
                == "new"@
            &&& c is ComponentUsage <==> args[1] == "component"@ && !(args.len() > 2 && args[2]
                == "new"@)
        }),
{
    reveal_strlit("new");
    reveal_strlit("component");
    reveal_strlit("start");
    reveal_strlit("spawn");
    reveal_strlit("send");
    reveal_strlit("call");
    reveal_strlit("run");
    assert("new"@.len() == 3 && "run"@.len() == 3 && "component"@.len() == 9);
    assert("start"@.len() == 5 && "spawn"@.len() == 5);
    assert("send"@.len() == 4 && "call"@.len() == 4);
    assert("new"@[0] != "run"@[0]);
    assert("start"@[1] != "spawn"@[1]);
    assert("send"@[0] != "call"@[0]);
}

} // verus!
