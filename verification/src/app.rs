//! Application manifests: what a node runs, and what the death of its root means.

use crate::message::ExitReason;
use crate::wire::SpawnRequest;
use serde::de::IgnoredAny;
use toml::de::{DeTable, DeValue};
use vstd::prelude::*;
use vstd::string::*;

verus! {

/// What the node does when the root particle exits.
#[derive(Clone, Copy, PartialEq, Eq, Structural, Debug)]
pub enum RestartType {
    /// The node terminates, whatever the reason.
    Permanent,
    /// The node terminates only if the root exited abnormally.
    Transient,
    /// The node keeps running.
    Temporary,
}

impl Default for RestartType {
    fn default() -> (r: Self)
        ensures
            r is Permanent,
    {
        RestartType::Permanent
    }
}

/// Whether the end of the root ends the node.
pub open spec fn stops_node(t: RestartType, abnormal: bool) -> bool {
    match t {
        RestartType::Permanent => true,
        RestartType::Transient => abnormal,
        RestartType::Temporary => false,
    }
}

impl RestartType {
    /// Whether the node should stop, given how the root exited.
    pub fn should_stop_node(&self, abnormal: bool) -> (r: bool)
        ensures
            r == stops_node(*self, abnormal),
    {
        match self {
            RestartType::Permanent => true,
            RestartType::Transient => abnormal,
            RestartType::Temporary => false,
        }
    }

    /// The code that the node exits with when its root exits; none where it goes on running.
    pub fn exit_code(&self, reason: &ExitReason) -> (r: Option<u8>)
        ensures
            r == (if stops_node(*self, *reason !is Normal) {
                Some(
                    if *reason is Normal {
                        0u8
                    } else {
                        1u8
                    },
                )
            } else {
                None
            }),
    {
        let abnormal = reason.is_abnormal();
        if self.should_stop_node(abnormal) {
            if abnormal {
                Some(1)
            } else {
                Some(0)
            }
        } else {
            None
        }
    }
}

/// A node's application manifest.
#[derive(PartialEq, Debug)]
pub struct Manifest {
    pub name: String,
    /// The component to spawn as the root.
    pub root: String,
    pub restart_type: RestartType,
    /// What the root is started with, as it stands.
    pub init_args: String,
}

/// What a manifest says.
pub struct ManifestView {
    pub name: Seq<char>,
    pub root: Seq<char>,
    pub restart_type: RestartType,
    pub init_args: Seq<char>,
}

impl View for Manifest {
    type V = ManifestView;

    open spec fn view(&self) -> ManifestView {
        ManifestView {
            name: self.name@,
            root: self.root@,
            restart_type: self.restart_type,
            init_args: self.init_args@,
        }
    }
}

/// Why a text is not a manifest.
#[derive(Clone, Copy, PartialEq, Eq, Structural, Debug)]
pub enum ManifestError {
    Invalid,
}

/// A value of a document, as far as a manifest looks into it.
pub enum TomlItem {
    Text(String),
    /// The keys of a table, each with the length of its value where that is a list or a table.
    Table(Vec<(String, Option<usize>)>),
    Other,
}

/// A value as plain data: the text if it is one, and the keys with the lengths if it is a table.
pub open spec fn item_view(item: TomlItem) -> (
    Option<Seq<char>>,
    Option<Seq<(Seq<char>, Option<usize>)>>,
) {
    match item {
        TomlItem::Text(s) => (Some(s@), None),
        TomlItem::Table(t) => (
            None,
            Some(t@.map_values(|x: (String, Option<usize>)| (x.0@, x.1))),
        ),
        TomlItem::Other => (None, None),
    }
}

/// The top-level entries of the document that `toml` reads in a text, if it reads one: for each
/// key the text if the value is one, and the keys of the value, each with the length of its own
/// value where that is a list or a table, if the value is a table.
pub uninterp spec fn toml_entries(src: Seq<char>) -> Option<
    Map<Seq<char>, (Option<Seq<char>>, Option<Seq<(Seq<char>, Option<usize>)>>)>,
>;

/// `toml::de::DeTable::parse`: the top-level entries of a document, each key once.
#[verifier::external_body]
fn parse_toml(src: &str) -> (r: Option<Vec<(String, TomlItem)>>)
    ensures
        match r {
            None => toml_entries(src@) is None,
            Some(v) => toml_entries(src@) is Some && (forall|i: int|
                0 <= i < v@.len() ==> toml_entries(src@)->0.contains_key((#[trigger] v@[i]).0@)
                    && toml_entries(src@)->0[v@[i].0@] == item_view(v@[i].1)) && (forall|
                k: Seq<char>,
            | #[trigger]
                toml_entries(src@)->0.contains_key(k) ==> exists|i: int|
                    0 <= i < v@.len() && (#[trigger] v@[i]).0@ == k),
        },
{
    let entries = DeTable::parse(src).ok()?.into_inner().into_iter();
    let item = |v| match v {
        DeValue::String(s) => TomlItem::Text(s.into_owned()),
        DeValue::Table(t) => TomlItem::Table(
            t.into_iter().map(|(k, v)| (k.into_inner().into_owned(), match v.into_inner() {
                DeValue::Array(a) => Some(a.len()),
                DeValue::Table(t) => Some(t.len()),
                _ => None,
            })).collect(),
        ),
        _ => TomlItem::Other,
    };
    Some(entries.map(|(k, v)| (k.into_inner().into_owned(), item(v.into_inner()))).collect())
}

/// Whether `toml` can read every value of a text: that it is a document, and that each number in
/// it, at whatever depth, fits a type that `toml` reads numbers into.
pub uninterp spec fn toml_readable(src: Seq<char>) -> bool;

/// `toml::from_str` into `serde::de::IgnoredAny`: reads every value and keeps none.
#[verifier::external_body]
fn is_readable(src: &str) -> (r: bool)
    ensures
        r == toml_readable(src@),
{
    toml::from_str::<IgnoredAny>(src).is_ok()
}

/// The restart type of a name.
pub open spec fn restart_named(s: Seq<char>) -> Option<RestartType> {
    if s == "permanent"@ {
        Some(RestartType::Permanent)
    } else if s == "transient"@ {
        Some(RestartType::Transient)
    } else if s == "temporary"@ {
        Some(RestartType::Temporary)
    } else {
        None
    }
}

/// The restart type that a value means: its name, or a table with its name and an empty value.
pub open spec fn restart_of(
    item: (Option<Seq<char>>, Option<Seq<(Seq<char>, Option<usize>)>>),
) -> Option<RestartType> {
    match item {
        (Some(s), _) => restart_named(s),
        (None, Some(t)) => if t.len() == 1 && t[0].1 == Some(0usize) {
            restart_named(t[0].0)
        } else {
            None
        },
        (None, None) => None,
    }
}

/// The text of a required entry.
pub open spec fn text_entry(
    m: Map<Seq<char>, (Option<Seq<char>>, Option<Seq<(Seq<char>, Option<usize>)>>)>,
    key: Seq<char>,
) -> Option<Seq<char>> {
    if m.contains_key(key) {
        m[key].0
    } else {
        None
    }
}

/// The manifest that the entries of a document are: a name and a root are required, a restart
/// type and arguments may be left out, and anything else is ignored.
pub open spec fn manifest_of(
    m: Map<Seq<char>, (Option<Seq<char>>, Option<Seq<(Seq<char>, Option<usize>)>>)>,
) -> Option<ManifestView> {
    let restart = if m.contains_key("type"@) {
        restart_of(m["type"@])
    } else {
        Some(RestartType::Permanent)
    };
    let args = if m.contains_key("init_args"@) {
        m["init_args"@].0
    } else {
        Some(Seq::empty())
    };
    match (text_entry(m, "name"@), text_entry(m, "root"@), restart, args) {
        (Some(name), Some(root), Some(restart_type), Some(init_args)) => Some(
            ManifestView { name, root, restart_type, init_args },
        ),
        _ => None,
    }
}

/// The manifest that a text is.
pub open spec fn manifest_in(src: Seq<char>) -> Option<ManifestView> {
    match toml_entries(src) {
        Some(m) if toml_readable(src) => manifest_of(m),
        _ => None,
    }
}

/// Entries stand for a map: each entry is in it, and each of its keys has an entry.
pub open spec fn stand_for(
    v: Seq<(String, TomlItem)>,
    m: Map<Seq<char>, (Option<Seq<char>>, Option<Seq<(Seq<char>, Option<usize>)>>)>,
) -> bool {
    &&& forall|i: int|
        0 <= i < v.len() ==> m.contains_key((#[trigger] v[i]).0@) && m[v[i].0@] == item_view(v[i].1)
    &&& forall|k: Seq<char>| #[trigger]
        m.contains_key(k) ==> exists|i: int| 0 <= i < v.len() && (#[trigger] v[i]).0@ == k
}

/// The map that a list of entries stands for.
pub open spec fn entries_of(v: Seq<(String, TomlItem)>) -> Map<
    Seq<char>,
    (Option<Seq<char>>, Option<Seq<(Seq<char>, Option<usize>)>>),
> {
    Map::new(
        |k: Seq<char>| exists|i: int| 0 <= i < v.len() && (#[trigger] v[i]).0@ == k,
        |k: Seq<char>|
            {
                let i = choose|i: int| 0 <= i < v.len() && (#[trigger] v[i]).0@ == k;
                item_view(v[i].1)
            },
    )
}

fn find_entry<'a>(entries: &'a Vec<(String, TomlItem)>, key: &str) -> (r: Option<&'a TomlItem>)
    ensures
        match r {
            Some(item) => exists|i: int|
                0 <= i < entries@.len() && (#[trigger] entries@[i]).0@ == key@ && entries@[i].1
                    == *item,
            None => forall|i: int| 0 <= i < entries@.len() ==> (#[trigger] entries@[i]).0@ != key@,
        },
{
    let wanted = key.to_owned();
    let mut i: usize = 0;
    while i < entries.len()
        invariant
            i <= entries@.len(),
            wanted@ == key@,
            forall|j: int| 0 <= j < i ==> (#[trigger] entries@[j]).0@ != key@,
        decreases entries@.len() - i,
    {
        if entries[i].0 == wanted {
            return Some(&entries[i].1);
        }
        i += 1;
    }
    None
}

fn restart_from_name(s: &String) -> (r: Option<RestartType>)
    ensures
        r == restart_named(s@),
{
    if *s == "permanent".to_owned() {
        Some(RestartType::Permanent)
    } else if *s == "transient".to_owned() {
        Some(RestartType::Transient)
    } else if *s == "temporary".to_owned() {
        Some(RestartType::Temporary)
    } else {
        None
    }
}

fn restart_from_item(item: &TomlItem) -> (r: Option<RestartType>)
    ensures
        r == restart_of(item_view(*item)),
{
    match item {
        TomlItem::Text(s) => restart_from_name(s),
        TomlItem::Table(t) => {
            if t.len() == 1 {
                match t[0].1 {
                    Some(n) => if n == 0 {
                        restart_from_name(&t[0].0)
                    } else {
                        None
                    },
                    None => None,
                }
            } else {
                None
            }
        },
        TomlItem::Other => None,
    }
}

impl Manifest {
    /// The manifest that the entries of a document are.
    pub fn from_entries(entries: &Vec<(String, TomlItem)>) -> (r: Result<Manifest, ManifestError>)
        requires
            stand_for(entries@, entries_of(entries@)),
        ensures
            match r {
                Ok(m) => manifest_of(entries_of(entries@)) == Some(m@),
                Err(_) => manifest_of(entries_of(entries@)) is None,
            },
    {
        let name = match find_entry(entries, "name") {
            Some(TomlItem::Text(s)) => s.clone(),
            _ => return Err(ManifestError::Invalid),
        };
        let root = match find_entry(entries, "root") {
            Some(TomlItem::Text(s)) => s.clone(),
            _ => return Err(ManifestError::Invalid),
        };
        let restart_type = match find_entry(entries, "type") {
            Some(item) => match restart_from_item(item) {
                Some(t) => t,
                None => return Err(ManifestError::Invalid),
            },
            None => RestartType::default(),
        };
        let init_args = match find_entry(entries, "init_args") {
            Some(TomlItem::Text(s)) => s.clone(),
            Some(_) => return Err(ManifestError::Invalid),
            None => String::new(),
        };
        Ok(Manifest { name, root, restart_type, init_args })
    }

    /// What is asked for to start the application: its root, under the application's name.
    pub fn root_request(&self) -> (r: SpawnRequest)
        ensures
            r.component@ == self@.root,
            r.name matches Some(n) && n@ == self@.name,
            r.init_args@ == self@.init_args,
    {
        SpawnRequest {
            component: self.root.clone(),
            name: Some(self.name.clone()),
            init_args: self.init_args.clone(),
        }
    }

    /// Reads a manifest. Entries that a manifest does not look at have to be readable too.
    pub fn from_toml(src: &str) -> (r: Result<Manifest, ManifestError>)
        ensures
            match r {
                Ok(m) => manifest_in(src@) == Some(m@),
                Err(_) => manifest_in(src@) is None,
            },
    {
        if !is_readable(src) {
            return Err(ManifestError::Invalid);
        }
        match parse_toml(src) {
            Some(entries) => {
                proof {
                    let m = toml_entries(src@)->0;
                    let all = entries_of(entries@);
                    assert forall|k: Seq<char>| all.contains_key(k) == m.contains_key(k) by {}
                    assert forall|k: Seq<char>| all.contains_key(k) implies all[k] == m[k] by {
                        let i = choose|i: int|
                            0 <= i < entries@.len() && (#[trigger] entries@[i]).0@ == k;
                    }
                }
                Manifest::from_entries(&entries)
            },
            None => Err(ManifestError::Invalid),
        }
    }
}

/// A manifest that says nothing of failure still makes failure visible: the node stops, however
/// its root exited.
pub proof fn law_silence_means_permanent(
    m: Map<Seq<char>, (Option<Seq<char>>, Option<Seq<(Seq<char>, Option<usize>)>>)>,
    abnormal: bool,
)
    requires
        manifest_of(m) is Some,
        !m.contains_key("type"@),
    ensures
        manifest_of(m)->0.restart_type is Permanent,
        stops_node(manifest_of(m)->0.restart_type, abnormal),
{
}

} // verus!
