//! New applications and components: which names they may have, and what their files hold.

use crate::text::push_char;
use vstd::prelude::*;
use vstd::string::*;

verus! {

/// Why a name cannot be that of an application or a component.
#[derive(Clone, Copy, PartialEq, Eq, Structural, Debug)]
pub enum NameError {
    Empty,
    /// It does not start with a lower-case letter.
    BadStart,
    /// It holds something other than lower-case letters, digits and hyphens.
    BadCharacter,
    /// It ends with a hyphen.
    TrailingHyphen,
}

pub open spec fn is_lower(c: char) -> bool {
    'a' <= c <= 'z'
}

/// A lower-case letter, a digit or a hyphen.
pub open spec fn is_name_char(c: char) -> bool {
    is_lower(c) || '0' <= c <= '9' || c == '-'
}

/// What is wrong with a name, if anything.
pub open spec fn name_fault(s: Seq<char>) -> Option<NameError> {
    if s.len() == 0 {
        Some(NameError::Empty)
    } else if !is_lower(s[0]) {
        Some(NameError::BadStart)
    } else if exists|i: int| 0 <= i < s.len() && !is_name_char(#[trigger] s[i]) {
        Some(NameError::BadCharacter)
    } else if s.last() == '-' {
        Some(NameError::TrailingHyphen)
    } else {
        None
    }
}

/// Whether a name can be that of an application or a component.
pub fn validate_name(name: &str) -> (r: Result<(), NameError>)
    ensures
        match name_fault(name@) {
            Some(e) => r == Err::<(), NameError>(e),
            None => r is Ok,
        },
{
    let n: usize = name.unicode_len();
    if n == 0 {
        return Err(NameError::Empty);
    }
    let first = name.get_char(0);
    if !('a' <= first && first <= 'z') {
        return Err(NameError::BadStart);
    }
    let mut i: usize = 0;
    while i < n
        invariant
            i <= n,
            n == name@.len(),
            n > 0,
            is_lower(name@[0]),
            forall|j: int| 0 <= j < i ==> is_name_char(#[trigger] name@[j]),
        decreases n - i,
    {
        let c = name.get_char(i);
        if !(('a' <= c && c <= 'z') || ('0' <= c && c <= '9') || c == '-') {
            return Err(NameError::BadCharacter);
        }
        i += 1;
    }
    if name.get_char(n - 1) == '-' {
        return Err(NameError::TrailingHyphen);
    }
    Ok(())
}

/// The upper-case form of a character, as Unicode has it: one character or more.
pub uninterp spec fn uppercase(c: char) -> Seq<char>;

/// `char::to_uppercase`.
#[verifier::external_body]
fn to_upper(c: char) -> (r: String)
    ensures
        r@ == uppercase(c),
{
    c.to_uppercase().to_string()
}

/// A text with its hyphens taken out, and the first character and those after a hyphen in upper
/// case.
pub open spec fn pascal(s: Seq<char>) -> Seq<char>
    decreases s.len(),
{
    if s.len() == 0 {
        Seq::empty()
    } else if s.last() == '-' {
        pascal(s.drop_last())
    } else if s.len() == 1 || s[s.len() - 2] == '-' {
        pascal(s.drop_last()) + uppercase(s.last())
    } else {
        pascal(s.drop_last()).push(s.last())
    }
}

/// A name with hyphens as the name of a type: `order-service` becomes `OrderService`.
pub fn to_pascal_case(name: &str) -> (r: String)
    ensures
        r@ == pascal(name@),
{
    let n: usize = name.unicode_len();
    let mut r = String::new();
    let mut fresh: bool = true;
    let mut i: usize = 0;
    while i < n
        invariant
            i <= n,
            n == name@.len(),
            r@ == pascal(name@.take(i as int)),
            fresh == (i == 0 || name@[i - 1] == '-'),
        decreases n - i,
    {
        let c = name.get_char(i);
        proof {
            assert(name@.take(i + 1).drop_last() =~= name@.take(i as int));
        }
        if c == '-' {
            fresh = true;
        } else if fresh {
            r.append(to_upper(c).as_str());
            fresh = false;
        } else {
            push_char(&mut r, c);
        }
        i += 1;
    }
    assert(name@.take(n as int) =~= name@);
    r
}

/// A name with underscores for its hyphens.
pub open spec fn underscored(s: Seq<char>) -> Seq<char> {
    s.map_values(
        |c: char|
            if c == '-' {
                '_'
            } else {
                c
            },
    )
}

/// A name with underscores for its hyphens.
pub fn to_underscored(name: &str) -> (r: String)
    ensures
        r@ == underscored(name@),
{
    let n: usize = name.unicode_len();
    let mut r = String::new();
    let mut i: usize = 0;
    while i < n
        invariant
            i <= n,
            n == name@.len(),
            r@ =~= underscored(name@.take(i as int)),
        decreases n - i,
    {
        let c = name.get_char(i);
        push_char(
            &mut r,
            if c == '-' {
                '_'
            } else {
                c
            },
        );
        i += 1;
    }
    r
}

/// The workspace manifest of a new application.
pub const WORKSPACE_TOML: &'static str = "[workspace]
members = [\"components/*\"]
resolver = \"2\"
";

pub const CARGO_NAME: &'static str = "[package]
name = \"";

pub const CARGO_PACKAGE: &'static str = "\"
version = \"0.1.0\"
edition = \"2021\"

[lib]
crate-type = [\"cdylib\"]

[dependencies]
wit-bindgen-rt = \"0.41\"

[package.metadata.component]
package = \"";

pub const CARGO_TARGET: &'static str = "\"

[package.metadata.component.target]
path = \"../../wit/components/";

pub const CARGO_WORLD: &'static str = "\"
world = \"";

pub const CARGO_DEPENDENCIES: &'static str = "\"

[package.metadata.component.target.dependencies]
\"plasmoid:runtime\" = { path = \"../../wit/components/";

pub const CARGO_END: &'static str = "/deps/runtime\" }
";

/// What the manifest of a component holds.
pub open spec fn cargo_toml_text(namespace: Seq<char>, name: Seq<char>) -> Seq<char> {
    CARGO_NAME@ + name + CARGO_PACKAGE@ + namespace + ":"@ + name + CARGO_TARGET@ + name
        + CARGO_WORLD@ + underscored(name) + CARGO_DEPENDENCIES@ + name + CARGO_END@
}

/// The manifest of a new component.
pub fn component_cargo_toml(namespace: &str, name: &str) -> (r: String)
    ensures
        r@ == cargo_toml_text(namespace@, name@),
{
    let mut r = CARGO_NAME.to_owned();
    r.append(name);
    r.append(CARGO_PACKAGE);
    r.append(namespace);
    r.append(":");
    r.append(name);
    r.append(CARGO_TARGET);
    r.append(name);
    r.append(CARGO_WORLD);
    r.append(to_underscored(name).as_str());
    r.append(CARGO_DEPENDENCIES);
    r.append(name);
    r.append(CARGO_END);
    r
}

pub const LIB_STRUCT: &'static str = "#[allow(warnings)]
mod bindings;

use bindings::plasmoid::runtime::host;

struct ";

pub const LIB_IMPL: &'static str = ";

impl bindings::Guest for ";

pub const LIB_START: &'static str = " {
    fn start() -> Result<(), String> {
        host::log(host::LogLevel::Info, \"";

pub const LIB_LOOP: &'static str = " started\");
        loop {
            match host::recv(None) {
                Some(host::Message::Data(data)) => {
                    if data == b\"stop\" {
                        return Ok(());
                    }
                    host::log(host::LogLevel::Info, &format!(\"";

pub const LIB_EXPORT: &'static str = " received {} bytes\", data.len()));
                }
                Some(host::Message::Exit(_)) | Some(host::Message::Down(_)) => {}
                Some(host::Message::Tagged(_)) => {}
                Some(host::Message::SpawnReply(_)) => {}
                None => return Ok(()),
            }
        }
    }
}

bindings::export!(";

pub const LIB_END: &'static str = " with_types_in bindings);
";

/// What the code of a component holds.
pub open spec fn lib_rs_text(name: Seq<char>) -> Seq<char> {
    LIB_STRUCT@ + pascal(name) + LIB_IMPL@ + pascal(name) + LIB_START@ + underscored(
        name,
    ) + LIB_LOOP@ + underscored(name) + LIB_EXPORT@ + pascal(name) + LIB_END@
}

/// The code of a new component.
pub fn component_lib_rs(name: &str) -> (r: String)
    ensures
        r@ == lib_rs_text(name@),
{
    let pascal_name = to_pascal_case(name);
    let crate_name = to_underscored(name);
    let mut r = LIB_STRUCT.to_owned();
    r.append(pascal_name.as_str());
    r.append(LIB_IMPL);
    r.append(pascal_name.as_str());
    r.append(LIB_START);
    r.append(crate_name.as_str());
    r.append(LIB_LOOP);
    r.append(crate_name.as_str());
    r.append(LIB_EXPORT);
    r.append(pascal_name.as_str());
    r.append(LIB_END);
    r
}

pub const WIT_WORLD: &'static str = "@0.1.0;

world ";

pub const WIT_END: &'static str = " {
    include plasmoid:runtime/particle@0.11.0;
    export start: func() -> result<_, string>;
}
";

/// What the interface of a component holds.
pub open spec fn wit_text(namespace: Seq<char>, name: Seq<char>) -> Seq<char> {
    "package "@ + namespace + ":"@ + name + WIT_WORLD@ + underscored(name) + WIT_END@
}

/// The interface of a new component.
pub fn component_wit(namespace: &str, name: &str) -> (r: String)
    ensures
        r@ == wit_text(namespace@, name@),
{
    let mut r = "package ".to_owned();
    r.append(namespace);
    r.append(":");
    r.append(name);
    r.append(WIT_WORLD);
    r.append(to_underscored(name).as_str());
    r.append(WIT_END);
    r
}

/// A hyphen never reaches a name that is used as an identifier.
pub proof fn law_underscored_names_have_no_hyphen(name: Seq<char>)
    ensures
        forall|i: int| 0 <= i < underscored(name).len() ==> #[trigger] underscored(name)[i] != '-',
        underscored(name).len() == name.len(),
{
}

/// A name that is accepted is never empty, starts with a letter and does not end with a hyphen.
pub proof fn law_accepted_names_are_clean(name: Seq<char>)
    requires
        name_fault(name) is None,
    ensures
        name.len() > 0,
        is_lower(name[0]),
        name.last() != '-',
        forall|i: int| 0 <= i < name.len() ==> is_name_char(#[trigger] name[i]),
{
}

} // verus!
