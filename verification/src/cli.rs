//! The command line: which command is meant, and what its arguments say.

use crate::pid::NodeId;
use crate::registry;
use vstd::prelude::*;
use vstd::string::*;

verus! {

/// The arguments of a command.
pub open spec fn words(args: Seq<String>) -> Seq<Seq<char>> {
    args.map_values(|a: String| a@)
}

fn is(arg: &String, word: &str) -> (r: bool)
    ensures
        r == (arg@ == word@),
{
    *arg == word.to_owned()
}

/// Which command is meant.
#[derive(Clone, Copy, PartialEq, Eq, Structural, Debug)]
pub enum Subcommand {
    New,
    ComponentNew,
    /// `component` without a known command after it.
    ComponentUsage,
    Start,
    Spawn,
    Send,
    /// `call`, which is now `send`.
    CallIsSend,
    /// `run`, which is now `start`.
    RunIsStart,
    Unknown,
}

/// The command that the arguments name, the first of them being the program.
pub open spec fn named_command(args: Seq<Seq<char>>) -> Subcommand {
    if args.len() < 2 {
        Subcommand::Unknown
    } else if args[1] == "new"@ {
        Subcommand::New
    } else if args[1] == "component"@ {
        if args.len() > 2 && args[2] == "new"@ {
            Subcommand::ComponentNew
        } else {
            Subcommand::ComponentUsage
        }
    } else if args[1] == "start"@ {
        Subcommand::Start
    } else if args[1] == "spawn"@ {
        Subcommand::Spawn
    } else if args[1] == "send"@ {
        Subcommand::Send
    } else if args[1] == "call"@ {
        Subcommand::CallIsSend
    } else if args[1] == "run"@ {
        Subcommand::RunIsStart
    } else {
        Subcommand::Unknown
    }
}

/// The command that the arguments name.
pub fn subcommand(args: &Vec<String>) -> (r: Subcommand)
    ensures
        r == named_command(words(args@)),
{
    if args.len() < 2 {
        return Subcommand::Unknown;
    }
    if is(&args[1], "new") {
        Subcommand::New
    } else if is(&args[1], "component") {
        if args.len() > 2 {
            if is(&args[2], "new") {
                return Subcommand::ComponentNew;
            }
        }
        Subcommand::ComponentUsage
    } else if is(&args[1], "start") {
        Subcommand::Start
    } else if is(&args[1], "spawn") {
        Subcommand::Spawn
    } else if is(&args[1], "send") {
        Subcommand::Send
    } else if is(&args[1], "call") {
        Subcommand::CallIsSend
    } else if is(&args[1], "run") {
        Subcommand::RunIsStart
    } else {
        Subcommand::Unknown
    }
}

/// Why arguments were refused.
#[derive(PartialEq, Debug)]
pub enum CliError {
    /// The command was not used as it should be.
    Usage,
    /// `--data-dir` without a directory.
    DataDirNeedsDirectory,
    /// `--peer` without a node id.
    PeerNeedsNode,
    /// What follows `--peer` is not a node id.
    BadPeer(String),
    /// `--load-path` without a directory.
    LoadPathNeedsDirectory,
    /// `--app` without a manifest.
    AppNeedsManifest,
    /// `--spawn` without a component.
    SpawnNeedsComponent,
    /// `--name` without a name.
    NameNeedsValue,
    /// `--init` without an expression.
    InitNeedsExpression,
    /// `--node` without a node id.
    NodeNeedsId,
    /// What follows `--node` is not a node id.
    BadNode(String),
    /// No component to spawn.
    MissingComponent,
    /// No node was named, and the environment names none either.
    NoNode,
    /// What the environment names is not a node id.
    BadEnvironmentNode(String),
    Unexpected(String),
}

/// What an error says.
pub enum CliErrorView {
    Usage,
    DataDirNeedsDirectory,
    PeerNeedsNode,
    BadPeer(Seq<char>),
    LoadPathNeedsDirectory,
    AppNeedsManifest,
    SpawnNeedsComponent,
    NameNeedsValue,
    InitNeedsExpression,
    NodeNeedsId,
    BadNode(Seq<char>),
    MissingComponent,
    NoNode,
    BadEnvironmentNode(Seq<char>),
    Unexpected(Seq<char>),
}

impl View for CliError {
    type V = CliErrorView;

    open spec fn view(&self) -> CliErrorView {
        match *self {
            CliError::Usage => CliErrorView::Usage,
            CliError::DataDirNeedsDirectory => CliErrorView::DataDirNeedsDirectory,
            CliError::PeerNeedsNode => CliErrorView::PeerNeedsNode,
            CliError::BadPeer(s) => CliErrorView::BadPeer(s@),
            CliError::LoadPathNeedsDirectory => CliErrorView::LoadPathNeedsDirectory,
            CliError::AppNeedsManifest => CliErrorView::AppNeedsManifest,
            CliError::SpawnNeedsComponent => CliErrorView::SpawnNeedsComponent,
            CliError::NameNeedsValue => CliErrorView::NameNeedsValue,
            CliError::InitNeedsExpression => CliErrorView::InitNeedsExpression,
            CliError::NodeNeedsId => CliErrorView::NodeNeedsId,
            CliError::BadNode(s) => CliErrorView::BadNode(s@),
            CliError::MissingComponent => CliErrorView::MissingComponent,
            CliError::NoNode => CliErrorView::NoNode,
            CliError::BadEnvironmentNode(s) => CliErrorView::BadEnvironmentNode(s@),
            CliError::Unexpected(s) => CliErrorView::Unexpected(s@),
        }
    }
}

/// What an optional error says.
pub open spec fn opt_error(e: Option<CliError>) -> Option<CliErrorView> {
    match e {
        Some(x) => Some(x@),
        None => None,
    }
}

/// A particle that is to be spawned.
#[derive(PartialEq, Debug)]
pub struct SpawnSpec {
    pub component: String,
    pub name: Option<String>,
    pub init_args: String,
}

/// What a spawn is to do.
pub struct SpawnView {
    pub component: Seq<char>,
    pub name: Option<Seq<char>>,
    pub init_args: Seq<char>,
}

impl View for SpawnSpec {
    type V = SpawnView;

    open spec fn view(&self) -> SpawnView {
        SpawnView {
            component: self.component@,
            name: registry::opt_text(self.name),
            init_args: self.init_args@,
        }
    }
}

/// Where code is to be loaded from.
#[derive(PartialEq, Debug)]
pub enum LoadItem {
    File(String),
    /// Every module in a directory.
    Directory(String),
}

/// Where code is to be loaded from.
pub enum LoadView {
    File(Seq<char>),
    Directory(Seq<char>),
}

impl View for LoadItem {
    type V = LoadView;

    open spec fn view(&self) -> LoadView {
        match *self {
            LoadItem::File(s) => LoadView::File(s@),
            LoadItem::Directory(s) => LoadView::Directory(s@),
        }
    }
}

/// The options `--name` and `--init` that stand from a position on, in any number and order, the
/// last of each counting.
pub struct OptionsView {
    pub name: Option<Seq<char>>,
    pub init_args: Seq<char>,
    /// Where they end.
    pub next: int,
    pub error: Option<CliErrorView>,
}

/// Reads the options `--name` and `--init` from a position on.
pub open spec fn spawn_options(
    args: Seq<Seq<char>>,
    at: int,
    name: Option<Seq<char>>,
    init_args: Seq<char>,
) -> OptionsView
    decreases args.len() - at,
{
    if at < 0 || at >= args.len() {
        OptionsView { name, init_args, next: at, error: None }
    } else if args[at] == "--name"@ {
        if at + 1 >= args.len() {
            OptionsView { name, init_args, next: at, error: Some(CliErrorView::NameNeedsValue) }
        } else {
            spawn_options(args, at + 2, Some(args[at + 1]), init_args)
        }
    } else if args[at] == "--init"@ {
        if at + 1 >= args.len() {
            OptionsView { name, init_args, next: at, error: Some(CliErrorView::InitNeedsExpression) }
        } else {
            spawn_options(args, at + 2, name, args[at + 1])
        }
    } else {
        OptionsView { name, init_args, next: at, error: None }
    }
}

/// Options end after they begin, within the arguments.
pub proof fn lemma_options_end(
    args: Seq<Seq<char>>,
    at: int,
    name: Option<Seq<char>>,
    init_args: Seq<char>,
)
    requires
        0 <= at <= args.len(),
    ensures
        at <= spawn_options(args, at, name, init_args).next <= args.len(),
    decreases args.len() - at,
{
    if at + 1 < args.len() {
        if args[at] == "--name"@ {
            lemma_options_end(args, at + 2, Some(args[at + 1]), init_args);
        } else if args[at] == "--init"@ {
            lemma_options_end(args, at + 2, name, args[at + 1]);
        }
    }
}

/// The options `--name` and `--init`.
struct Options {
    name: Option<String>,
    init_args: String,
    next: usize,
    error: Option<CliError>,
}

fn read_spawn_options(args: &Vec<String>, from: usize) -> (r: Options)
    requires
        from <= args@.len(),
    ensures
        ({
            let v = spawn_options(words(args@), from as int, None, Seq::empty());
            &&& registry::opt_text(r.name) == v.name
            &&& r.init_args@ == v.init_args
            &&& r.next == v.next
            &&& from <= r.next <= args@.len()
            &&& opt_error(r.error) == v.error
        }),
{
    let ghost w = words(args@);
    let ghost all = spawn_options(w, from as int, None, Seq::empty());
    let mut name: Option<String> = None;
    let mut init_args = String::new();
    let mut at: usize = from;
    let mut error: Option<CliError> = None;
    let mut more: bool = true;
    while more && at < args.len()
        invariant
            from <= at <= args@.len(),
            w == words(args@),
            more ==> error is None && all == spawn_options(
                w,
                at as int,
                registry::opt_text(name),
                init_args@,
            ),
            !more ==> all == (OptionsView {
                name: registry::opt_text(name),
                init_args: init_args@,
                next: at as int,
                error: opt_error(error),
            }),
        decreases args@.len() - at, more as int,
    {
        if is(&args[at], "--name") {
            if args.len() - at < 2 {
                error = Some(CliError::NameNeedsValue);
                more = false;
            } else {
                name = Some(args[at + 1].clone());
                at += 2;
            }
        } else if is(&args[at], "--init") {
            if args.len() - at < 2 {
                error = Some(CliError::InitNeedsExpression);
                more = false;
            } else {
                init_args = args[at + 1].clone();
                at += 2;
            }
        } else {
            more = false;
        }
    }
    Options { name, init_args, next: at, error }
}

/// What `start` was asked to do, up to the first argument that was refused.
#[verifier::ext_equal]
pub struct StartView {
    pub data_dir: Option<Seq<char>>,
    pub peers: Seq<NodeId>,
    pub load: Seq<LoadView>,
    pub spawns: Seq<SpawnView>,
    pub app: Option<Seq<char>>,
    pub error: Option<CliErrorView>,
}

/// A text ends with another.
pub open spec fn has_suffix(s: Seq<char>, suffix: Seq<char>) -> bool {
    suffix.len() <= s.len() && s.skip(s.len() - suffix.len()) == suffix
}

/// The node id that a text is.
pub open spec fn node_in(s: Seq<char>) -> Option<Seq<u8>> {
    crate::pid::public_key_in_text(s)
}

impl StartView {
    pub open spec fn empty() -> StartView {
        StartView {
            data_dir: None,
            peers: Seq::empty(),
            load: Seq::empty(),
            spawns: Seq::empty(),
            app: None,
            error: None,
        }
    }

    pub open spec fn failed(self, e: CliErrorView) -> StartView {
        StartView { error: Some(e), ..self }
    }

    /// With the arguments from a position on.
    pub open spec fn read(self, args: Seq<Seq<char>>, at: int) -> StartView
        decreases args.len() - at,
    {
        if at < 0 || at >= args.len() {
            self
        } else if args[at] == "--data-dir"@ {
            if at + 1 >= args.len() {
                self.failed(CliErrorView::DataDirNeedsDirectory)
            } else {
                StartView { data_dir: Some(args[at + 1]), ..self }.read(args, at + 2)
            }
        } else if args[at] == "--peer"@ {
            if at + 1 >= args.len() {
                self.failed(CliErrorView::PeerNeedsNode)
            } else {
                match node_in(args[at + 1]) {
                    Some(bytes) => StartView {
                        peers: self.peers.push(
                            choose|n: NodeId| #[trigger] n.bytes() == bytes,
                        ),
                        ..self
                    }.read(args, at + 2),
                    None => self.failed(CliErrorView::BadPeer(args[at + 1])),
                }
            }
        } else if args[at] == "--load-path"@ {
            if at + 1 >= args.len() {
                self.failed(CliErrorView::LoadPathNeedsDirectory)
            } else {
                StartView {
                    load: self.load.push(LoadView::Directory(args[at + 1])),
                    ..self
                }.read(args, at + 2)
            }
        } else if args[at] == "--app"@ {
            if at + 1 >= args.len() {
                self.failed(CliErrorView::AppNeedsManifest)
            } else {
                StartView { app: Some(args[at + 1]), ..self }.read(args, at + 2)
            }
        } else if args[at] == "--spawn"@ {
            if at + 1 >= args.len() {
                self.failed(CliErrorView::SpawnNeedsComponent)
            } else {
                proof {
                    lemma_options_end(args, at + 2, None, Seq::empty());
                }
                let o = spawn_options(args, at + 2, None, Seq::empty());
                match o.error {
                    Some(e) => self.failed(e),
                    None => StartView {
                        spawns: self.spawns.push(
                            SpawnView {
                                component: args[at + 1],
                                name: o.name,
                                init_args: o.init_args,
                            },
                        ),
                        ..self
                    }.read(args, o.next),
                }
            }
        } else if has_suffix(args[at], ".wasm"@) {
            StartView { load: self.load.push(LoadView::File(args[at])), ..self }.read(args, at + 1)
        } else {
            self.failed(CliErrorView::Unexpected(args[at]))
        }
    }
}

/// What `start` was asked to do.
///
/// Reading stops at the first argument that is refused. What stands before it is kept, because a
/// directory that cannot be read is reported first where it was named first.
pub struct StartOptions {
    pub data_dir: Option<String>,
    pub peers: Vec<NodeId>,
    pub load: Vec<LoadItem>,
    pub spawns: Vec<SpawnSpec>,
    /// The manifest of an application to start.
    pub app: Option<String>,
    pub error: Option<CliError>,
}

impl View for StartOptions {
    type V = StartView;

    open spec fn view(&self) -> StartView {
        StartView {
            data_dir: registry::opt_text(self.data_dir),
            peers: self.peers@,
            load: self.load@.map_values(|x: LoadItem| x@),
            spawns: self.spawns@.map_values(|x: SpawnSpec| x@),
            app: registry::opt_text(self.app),
            error: opt_error(self.error),
        }
    }
}

/// Whether a text ends with another.
pub fn ends_with(s: &str, suffix: &str) -> (r: bool)
    ensures
        r == has_suffix(s@, suffix@),
{
    let n: usize = s.unicode_len();
    let m: usize = suffix.unicode_len();
    if m > n {
        return false;
    }
    let tail = s.substring_char(n - m, n);
    tail.to_owned() == suffix.to_owned()
}

/// Reads the arguments of `start`.
pub fn parse_start(args: &Vec<String>) -> (r: StartOptions)
    ensures
        r@ == StartView::empty().read(words(args@), 0),
{
    let ghost w = words(args@);
    let ghost all = StartView::empty().read(w, 0);
    let mut o = StartOptions {
        data_dir: None,
        peers: Vec::new(),
        load: Vec::new(),
        spawns: Vec::new(),
        app: None,
        error: None,
    };
    let mut at: usize = 0;
    assert(o@ =~= StartView::empty());
    while at < args.len()
        invariant
            at <= args@.len(),
            w == words(args@),
            o.error is None,
            all == StartView::empty().read(w, 0),
            all == o@.read(w, at as int),
        decreases args@.len() - at,
    {
        let ghost before = o@;
        let left: usize = args.len() - at;
        if is(&args[at], "--data-dir") {
            if left < 2 {
                o.error = Some(CliError::DataDirNeedsDirectory);
                return o;
            }
            o.data_dir = Some(args[at + 1].clone());
            at += 2;
        } else if is(&args[at], "--peer") {
            if left < 2 {
                o.error = Some(CliError::PeerNeedsNode);
                return o;
            }
            match NodeId::parse(args[at + 1].as_str()) {
                Some(node) => {
                    o.peers.push(node);
                    proof {
                        let bytes = node_in(w[at + 1])->0;
                        let n = choose|n: NodeId| #[trigger] n.bytes() == bytes;
                        crate::pid::lemma_node_bytes(n, node);
                    }
                    at += 2;
                },
                None => {
                    o.error = Some(CliError::BadPeer(args[at + 1].clone()));
                    return o;
                },
            }
        } else if is(&args[at], "--load-path") {
            if left < 2 {
                o.error = Some(CliError::LoadPathNeedsDirectory);
                return o;
            }
            o.load.push(LoadItem::Directory(args[at + 1].clone()));
            assert(o@ =~= StartView {
                load: before.load.push(LoadView::Directory(w[at + 1])),
                ..before
            });
            at += 2;
        } else if is(&args[at], "--app") {
            if left < 2 {
                o.error = Some(CliError::AppNeedsManifest);
                return o;
            }
            o.app = Some(args[at + 1].clone());
            at += 2;
        } else if is(&args[at], "--spawn") {
            if left < 2 {
                o.error = Some(CliError::SpawnNeedsComponent);
                return o;
            }
            let component = args[at + 1].clone();
            let options = read_spawn_options(args, at + 2);
            match options.error {
                Some(e) => {
                    o.error = Some(e);
                    return o;
                },
                None => {},
            }
            o.spawns.push(
                SpawnSpec { component, name: options.name, init_args: options.init_args },
            );
            assert(o@ =~= StartView {
                spawns: before.spawns.push(
                    SpawnView {
                        component: w[at + 1],
                        name: registry::opt_text(options.name),
                        init_args: options.init_args@,
                    },
                ),
                ..before
            });
            at = options.next;
        } else if ends_with(args[at].as_str(), ".wasm") {
            o.load.push(LoadItem::File(args[at].clone()));
            assert(o@ =~= StartView {
                load: before.load.push(LoadView::File(w[at as int])),
                ..before
            });
            at += 1;
        } else {
            o.error = Some(CliError::Unexpected(args[at].clone()));
            return o;
        }
    }
    o
}

/// What `spawn` was asked to do.
pub struct SpawnOptions {
    /// The node to spawn on, where one was named.
    pub node: Option<NodeId>,
    pub spec: SpawnSpec,
}

/// What `spawn` is asked to do: on which node, if one is named, and what.
pub open spec fn spawn_asked(args: Seq<Seq<char>>) -> Result<
    (Option<Seq<u8>>, SpawnView),
    CliErrorView,
> {
    if args.len() == 0 {
        Err(CliErrorView::Usage)
    } else if args[0] == "--node"@ {
        if args.len() < 2 {
            Err(CliErrorView::NodeNeedsId)
        } else {
            match node_in(args[1]) {
                Some(node) => spawn_asked_from(args, 2, Some(node)),
                None => Err(CliErrorView::BadNode(args[1])),
            }
        }
    } else {
        spawn_asked_from(args, 0, None)
    }
}

/// What `spawn` is asked to do, the component standing at a position.
pub open spec fn spawn_asked_from(args: Seq<Seq<char>>, at: int, node: Option<Seq<u8>>) -> Result<
    (Option<Seq<u8>>, SpawnView),
    CliErrorView,
> {
    if at >= args.len() {
        Err(CliErrorView::MissingComponent)
    } else {
        let o = spawn_options(args, at + 1, None, Seq::empty());
        match o.error {
            Some(e) => Err(e),
            None => if o.next < args.len() {
                Err(CliErrorView::Unexpected(args[o.next]))
            } else {
                Ok(
                    (
                        node,
                        SpawnView { component: args[at], name: o.name, init_args: o.init_args },
                    ),
                )
            },
        }
    }
}

/// What a node is.
pub open spec fn opt_node(n: Option<NodeId>) -> Option<Seq<u8>> {
    match n {
        Some(x) => Some(x.bytes()),
        None => None,
    }
}

/// Reads the arguments of `spawn`.
pub fn parse_spawn(args: &Vec<String>) -> (r: Result<SpawnOptions, CliError>)
    ensures
        match r {
            Ok(o) => spawn_asked(words(args@)) == Ok::<
                (Option<Seq<u8>>, SpawnView),
                CliErrorView,
            >((opt_node(o.node), o.spec@)),
            Err(e) => spawn_asked(words(args@)) == Err::<(Option<Seq<u8>>, SpawnView), CliErrorView>(
                e@,
            ),
        },
{
    if args.len() == 0 {
        return Err(CliError::Usage);
    }
    let mut node: Option<NodeId> = None;
    let mut at: usize = 0;
    if is(&args[0], "--node") {
        if args.len() < 2 {
            return Err(CliError::NodeNeedsId);
        }
        match NodeId::parse(args[1].as_str()) {
            Some(n) => {
                node = Some(n);
            },
            None => return Err(CliError::BadNode(args[1].clone())),
        }
        at = 2;
    }
    if at >= args.len() {
        return Err(CliError::MissingComponent);
    }
    let component = args[at].clone();
    let options = read_spawn_options(args, at + 1);
    match options.error {
        Some(e) => return Err(e),
        None => {},
    }
    if options.next < args.len() {
        return Err(CliError::Unexpected(args[options.next].clone()));
    }
    Ok(
        SpawnOptions {
            node,
            spec: SpawnSpec { component, name: options.name, init_args: options.init_args },
        },
    )
}

/// The node to talk to: the one that was named, or else the one that the environment names.
pub fn choose_node(named: Option<NodeId>, environment: Option<&str>) -> (r: Result<NodeId, CliError>)
    ensures
        match named {
            Some(n) => r == Ok::<NodeId, CliError>(n),
            None => match environment {
                None => r == Err::<NodeId, CliError>(CliError::NoNode),
                Some(text) => match node_in(text@) {
                    Some(bytes) => r matches Ok(n) && n.bytes() == bytes,
                    None => r matches Err(CliError::BadEnvironmentNode(t)) && t@ == text@,
                },
            },
        },
{
    match named {
        Some(n) => Ok(n),
        None => match environment {
            None => Err(CliError::NoNode),
            Some(text) => match NodeId::parse(text) {
                Some(n) => Ok(n),
                None => Err(CliError::BadEnvironmentNode(text.to_owned())),
            },
        },
    }
}

/// What `send` was asked to do.
pub struct SendOptions {
    /// The node to send to, where the first argument is one.
    pub node: Option<NodeId>,
    pub target: String,
    pub message: String,
}

/// Reads the arguments of `send`: a node id first, where the first argument is one, then the
/// target and the message.
pub fn parse_send(args: &Vec<String>) -> (r: Result<SendOptions, CliError>)
    ensures
        ({
            let w = words(args@);
            if w.len() < 2 {
                r == Err::<SendOptions, CliError>(CliError::Usage)
            } else {
                match node_in(w[0]) {
                    Some(bytes) => if w.len() < 3 {
                        r == Err::<SendOptions, CliError>(CliError::Usage)
                    } else {
                        r matches Ok(o) && opt_node(o.node) == Some(bytes) && o.target@ == w[1]
                            && o.message@ == w[2]
                    },
                    None => r matches Ok(o) && o.node is None && o.target@ == w[0] && o.message@
                        == w[1],
                }
            }
        }),
{
    let ghost w = words(args@);
    if args.len() < 2 {
        return Err(CliError::Usage);
    }
    match NodeId::parse(args[0].as_str()) {
        Some(node) => {
            if args.len() < 3 {
                return Err(CliError::Usage);
            }
            Ok(
                SendOptions {
                    node: Some(node),
                    target: args[1].clone(),
                    message: args[2].clone(),
                },
            )
        },
        None => Ok(
            SendOptions { node: None, target: args[0].clone(), message: args[1].clone() },
        ),
    }
}

} // verus!
