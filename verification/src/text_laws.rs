//! What texts are read as: arguments, paths, numerals, names of components and manifests.

use crate::actors;
use crate::app;
use crate::app::{ManifestView, RestartType};
use crate::cli;
use crate::host;
use crate::invoke;
use crate::invoke::{ArgError, ArgView, ExportView, ParamKind};
use crate::pid;
use crate::pid::PidKeyError;
use crate::scaffold;
use crate::scaffold::NameError;
use crate::text;
use vstd::prelude::*;

verus! {

/// A numeral reads back as its number, with or without a sign; and what reads as a number is
/// digits that denote it.
pub proof fn law_numerals_read_back(n: u64, s: Seq<char>)
    ensures
        text::parsed_u64(text::decimal(n as nat)) == Some(n),
        text::parsed_u64(seq!['+'] + text::decimal(n as nat)) == Some(n),
        text::parsed_u64(s) is Some ==> s.len() > 0 && (forall|i: int|
            0 < i < s.len() ==> '0' <= #[trigger] s[i] <= '9') && ('0' <= s[0] <= '9' || s[0]
            == '+' && s.len() > 1),
{
    let d = text::decimal(n as nat);
    text::lemma_decimal(n as nat);
    assert(text::is_digit(d[0]));
    assert((seq!['+'] + d).skip(1) =~= d);
    if text::parsed_u64(s) is Some {
        let u = text::unsigned_digits(s);
        assert(text::is_digit(u[0]));
        if s[0] == '+' {
            assert forall|i: int| 0 < i < s.len() implies '0' <= #[trigger] s[i] <= '9' by {
                assert(u[i - 1] == s[i]);
                assert(text::is_digit(u[i - 1]));
            }
        } else {
            assert forall|i: int| 0 < i < s.len() implies '0' <= #[trigger] s[i] <= '9' by {
                assert(text::is_digit(u[i]));
            }
        }
    }
}

/// Bytes are written as two digits each, and read back; only texts of that form are read.
pub proof fn law_hex_reads_back(bytes: Seq<u8>, s: Seq<char>)
    ensures
        text::hex_text(bytes).len() == 2 * bytes.len(),
        text::hex_bytes(text::hex_text(bytes)) == Some(bytes),
        text::hex_bytes(s) matches Some(b) ==> s.len() == 2 * b.len(),
        text::hex_bytes(s) is None ==> s.len() % 2 != 0 || exists|i: int|
            0 <= i < s.len() && !('0' <= #[trigger] s[i] <= '9' || 'a' <= s[i] <= 'f' || 'A' <= s[i]
                <= 'F'),
{
    text::lemma_hex_roundtrip(bytes);
    if text::hex_bytes(s) is None && s.len() % 2 == 0 {
        let i = choose|i: int| 0 <= i < s.len() && text::hex_value(#[trigger] s[i]) is None;
        assert(!('0' <= s[i] <= '9' || 'a' <= s[i] <= 'f' || 'A' <= s[i] <= 'F'));
    }
}

/// A byte is written with its high digit first, in lower case.
pub proof fn law_how_hex_is_written(bytes: Seq<u8>, i: int, c: char)
    requires
        0 <= i < bytes.len(),
    ensures
        ({
            let s = text::hex_text(bytes);
            &&& text::hex_value(s[2 * i]) == Some(bytes[i] as int / 16)
            &&& text::hex_value(s[2 * i + 1]) == Some(bytes[i] as int % 16)
            &&& '0' <= s[2 * i] <= '9' || 'a' <= s[2 * i] <= 'f'
            &&& '0' <= s[2 * i + 1] <= '9' || 'a' <= s[2 * i + 1] <= 'f'
        }),
        '0' <= c <= '9' ==> text::hex_value(c) == Some(c as int - 48),
        'a' <= c <= 'f' ==> text::hex_value(c) == Some(c as int - 87),
        'A' <= c <= 'F' ==> text::hex_value(c) == Some(c as int - 55),
{
    let b = bytes[i] as int;
    assert forall|d: int| 0 <= d < 16 implies text::hex_value(#[trigger] text::hex_digit(d)) == Some(
        d,
    ) && ('0' <= text::hex_digit(d) <= '9' || 'a' <= text::hex_digit(d) <= 'f') by {}
    assert(text::hex_text(bytes)[2 * i] == text::hex_digit(b / 16));
    assert(text::hex_text(bytes)[2 * i + 1] == text::hex_digit(b % 16));
}

/// A numeral is written with its highest digit first.
pub proof fn law_how_numerals_are_written(n: nat, d: nat)
    requires
        d < 10,
    ensures
        text::decimal(d).len() == 1,
        text::decimal(d)[0] as int == 48 + d,
        n > 0 ==> text::decimal(n * 10 + d) == text::decimal(n) + text::decimal(d),
{
    if n > 0 {
        assert((n * 10 + d) / 10 == n);
        assert((n * 10 + d) % 10 == d);
        assert(text::decimal(n * 10 + d) =~= text::decimal(n) + text::decimal(d));
    }
}

/// The key of a pid is its node, a full stop and its number. A text is the key of a pid exactly
/// where it has that form; otherwise the first thing that is wrong with it is said.
pub proof fn law_how_keys_are_written(node: Seq<u8>, seq: u64, s: Seq<char>)
    ensures
        pid::key_text(node, seq) == text::hex_text(node) + seq!['.'] + text::decimal(seq as nat),
        pid::key_parts(s) matches Ok((n, k)) ==> exists|dot: int|
            0 <= dot < s.len() && #[trigger] s[dot] == '.' && text::hex_bytes(s.take(dot)) == Some(n)
                && text::parsed_u64(s.skip(dot + 1)) == Some(k) && n.len() == 32
                && pid::is_public_key(n),
        pid::key_parts(s) == Err::<(Seq<u8>, u64), PidKeyError>(PidKeyError::NoSeparator) <==> !(
        exists|i: int| 0 <= i < s.len() && #[trigger] s[i] == '.'),
{
    assert(pid::key_text(node, seq) =~= text::hex_text(node) + seq!['.'] + text::decimal(
        seq as nat,
    ));
    text::lemma_last_index_of(s, '.');
    if let Some(dot) = text::last_index_of(s, '.') {
        assert(s[dot] == '.');
    }
}

/// What is wrong with a text that has a full stop and is no key.
pub proof fn law_what_a_key_lacks(front: Seq<char>, back: Seq<char>)
    requires
        forall|i: int| 0 <= i < back.len() ==> #[trigger] back[i] != '.',
    ensures
        ({
            let read = pid::key_parts(front + seq!['.'] + back);
            match text::hex_bytes(front) {
                None => read == Err::<(Seq<u8>, u64), PidKeyError>(PidKeyError::BadHex),
                Some(n) => {
                    &&& n.len() != 32 ==> read == Err::<(Seq<u8>, u64), PidKeyError>(
                        PidKeyError::BadLength,
                    )
                    &&& n.len() == 32 && !pid::is_public_key(n) ==> read == Err::<
                        (Seq<u8>, u64),
                        PidKeyError,
                    >(PidKeyError::BadNode)
                    &&& n.len() == 32 && pid::is_public_key(n) ==> match text::parsed_u64(back) {
                        None => read == Err::<(Seq<u8>, u64), PidKeyError>(
                            PidKeyError::BadSequence,
                        ),
                        Some(k) => read == Ok::<(Seq<u8>, u64), PidKeyError>((n, k)),
                    }
                },
            }
        }),
{
    let s = front + seq!['.'] + back;
    let dot = front.len() as int;
    assert(s[dot] == '.');
    assert forall|j: int| dot < j < s.len() implies s[j] != '.' by {
        assert(s[j] == back[j - dot - 1]);
    }
    text::lemma_last_index_is(s, '.', dot);
    assert(s.take(dot) =~= front);
    assert(s.skip(dot + 1) =~= back);
}

/// A pid is shown as the first four bytes of its node and its number, in angle brackets.
pub proof fn law_how_pids_are_shown(node: Seq<u8>, seq: u64)
    requires
        node.len() >= 4,
    ensures
        pid::display_text(node, seq) == seq!['<'] + text::hex_text(node.take(4)) + seq!['.']
            + text::decimal(seq as nat) + seq!['>'],
        pid::display_text(node, seq)[9] == '.',
{
    text::lemma_hex_roundtrip(node.take(4));
    assert(text::hex_text(node.take(4)).len() == 8);
    assert(pid::display_text(node, seq) =~= seq!['<'] + text::hex_text(node.take(4)) + seq!['.']
        + text::decimal(seq as nat) + seq!['>']);
}

/// A text that ends with another is something and then that one.
pub proof fn law_what_a_suffix_is(s: Seq<char>, front: Seq<char>, suffix: Seq<char>)
    ensures
        cli::has_suffix(front + suffix, suffix),
        cli::has_suffix(s, suffix) ==> s == s.take(s.len() - suffix.len()) + suffix,
{
    let t = front + suffix;
    assert(t.skip(t.len() - suffix.len()) =~= suffix);
    if cli::has_suffix(s, suffix) {
        assert(s =~= s.take(s.len() - suffix.len()) + suffix);
    }
}

/// Quotes are put around a text, and taken off where they stand on both ends and only there.
pub proof fn law_how_texts_are_quoted(s: Seq<char>)
    ensures
        actors::in_quotes(s).len() == s.len() + 2,
        actors::in_quotes(s)[0] == '"' && actors::in_quotes(s).last() == '"',
        actors::in_quotes(s).subrange(1, s.len() as int + 1) == s,
        !(s.len() >= 2 && s[0] == '"' && s.last() == '"') ==> actors::unquoted(s) == s,
        s.len() >= 2 && s[0] == '"' && s.last() == '"' ==> actors::in_quotes(actors::unquoted(s))
            == s,
{
    assert(actors::in_quotes(s).subrange(1, s.len() as int + 1) =~= s);
    if s.len() >= 2 && s[0] == '"' && s.last() == '"' {
        assert(actors::in_quotes(actors::unquoted(s)) =~= s);
    }
}

proof fn lemma_first_index(s: Seq<char>, c: char, from: int)
    requires
        0 <= from,
    ensures
        match text::first_index_from(s, c, from) {
            Some(i) => from <= i < s.len() && s[i] == c && forall|j: int|
                from <= j < i ==> #[trigger] s[j] != c,
            None => forall|j: int| from <= j < s.len() ==> #[trigger] s[j] != c,
        },
    decreases s.len() - from,
{
    if from < s.len() && s[from] != c {
        lemma_first_index(s, c, from + 1);
    }
}

proof fn lemma_joined_front(a: Seq<char>, rest: Seq<Seq<char>>)
    requires
        rest.len() > 0,
    ensures
        invoke::joined(seq![a] + rest) == a + ","@ + invoke::joined(rest),
    decreases rest.len(),
{
    let all = seq![a] + rest;
    if rest.len() == 1 {
        assert(all.drop_last() =~= seq![a]);
        assert(invoke::joined(seq![a]) == a);
        assert(all.last() == rest[0]);
    } else {
        let init = rest.drop_last();
        lemma_joined_front(a, init);
        assert(all.drop_last() =~= seq![a] + init);
        assert(all.last() == rest.last());
        assert(invoke::joined(all) =~= a + ","@ + invoke::joined(rest));
    }
}

/// Cutting a text at its commas loses nothing: the pieces, joined by commas, are the text. There
/// are at most as many pieces as were asked for; none but the last of so many holds a comma.
pub proof fn law_cutting_loses_nothing(s: Seq<char>, n: nat)
    requires
        n > 0,
    ensures
        ({
            let parts = invoke::cut(s, n);
            &&& invoke::joined(parts) == s
            &&& 1 <= parts.len() <= n
            &&& forall|i: int, j: int|
                0 <= i < parts.len() && (i + 1 < n) && 0 <= j < parts[i].len()
                    ==> #[trigger] parts[i][j] != ','
        }),
    decreases n,
{
    reveal_strlit(",");
    let parts = invoke::cut(s, n);
    if n > 1 {
        lemma_first_index(s, ',', 0);
        match text::first_index_from(s, ',', 0) {
            None => {},
            Some(k) => {
                let rest = invoke::cut(s.skip(k + 1), (n - 1) as nat);
                law_cutting_loses_nothing(s.skip(k + 1), (n - 1) as nat);
                lemma_joined_front(s.take(k), rest);
                assert(s =~= s.take(k) + ","@ + s.skip(k + 1));
                assert forall|i: int, j: int|
                    0 <= i < parts.len() && (i + 1 < n) && 0 <= j < parts[i].len() implies
                #[trigger] parts[i][j] != ',' by {
                    if i > 0 {
                        assert(parts[i] == rest[i - 1]);
                        assert(rest[i - 1][j] != ',');
                    }
                }
            },
        }
    }
}

/// Texts without commas that were joined by commas are cut into the same texts again.
pub proof fn law_cutting_undoes_joining(args: Seq<Seq<char>>)
    requires
        args.len() > 0,
        forall|i: int, j: int|
            0 <= i < args.len() && 0 <= j < args[i].len() ==> #[trigger] args[i][j] != ',',
    ensures
        invoke::cut(invoke::joined(args), args.len()) == args,
    decreases args.len(),
{
    reveal_strlit(",");
    if args.len() == 1 {
        assert(invoke::cut(invoke::joined(args), 1) =~= args);
    } else {
        let a = args[0];
        let rest = args.skip(1);
        assert(args =~= seq![a] + rest);
        lemma_joined_front(a, rest);
        let s = invoke::joined(args);
        assert forall|i: int, j: int|
            0 <= i < rest.len() && 0 <= j < rest[i].len() implies #[trigger] rest[i][j] != ',' by {
            assert(args[i + 1][j] != ',');
        }
        law_cutting_undoes_joining(rest);
        lemma_first_index(s, ',', 0);
        assert(s[a.len() as int] == ',');
        assert forall|j: int| 0 <= j < a.len() implies #[trigger] s[j] != ',' by {
            assert(s[j] == args[0][j]);
        }
        let k = text::first_index_from(s, ',', 0)->0;
        assert(k == a.len());
        assert(s.take(k) =~= a);
        assert(s.skip(k + 1) =~= invoke::joined(rest));
        assert(invoke::cut(s, args.len()) =~= args);
    }
}

/// A part of a text with nothing but white space before and after it.
pub open spec fn is_core(s: Seq<char>, a: int, b: int) -> bool {
    &&& 0 <= a <= b <= s.len()
    &&& forall|i: int| 0 <= i < a ==> invoke::is_whitespace(#[trigger] s[i])
    &&& forall|i: int| b <= i < s.len() ==> invoke::is_whitespace(#[trigger] s[i])
    &&& a < b ==> !invoke::is_whitespace(s[a]) && !invoke::is_whitespace(s[b - 1])
}

proof fn lemma_trim_front(s: Seq<char>) -> (a: int)
    ensures
        0 <= a <= s.len(),
        invoke::trim_front(s) == s.skip(a),
        forall|i: int| 0 <= i < a ==> invoke::is_whitespace(#[trigger] s[i]),
        a < s.len() ==> !invoke::is_whitespace(s[a]),
    decreases s.len(),
{
    if s.len() > 0 && invoke::is_whitespace(s[0]) {
        let rest = s.skip(1);
        let b = lemma_trim_front(rest);
        assert(rest.skip(b) =~= s.skip(b + 1));
        assert forall|i: int| 0 <= i < b + 1 implies invoke::is_whitespace(#[trigger] s[i]) by {
            if i > 0 {
                assert(rest[i - 1] == s[i]);
            }
        }
        b + 1
    } else {
        assert(s.skip(0) =~= s);
        0
    }
}

proof fn lemma_trim_back(s: Seq<char>) -> (b: int)
    ensures
        0 <= b <= s.len(),
        invoke::trim_back(s) == s.take(b),
        forall|i: int| b <= i < s.len() ==> invoke::is_whitespace(#[trigger] s[i]),
        b > 0 ==> !invoke::is_whitespace(s[b - 1]),
    decreases s.len(),
{
    if s.len() > 0 && invoke::is_whitespace(s.last()) {
        let init = s.drop_last();
        let b = lemma_trim_back(init);
        assert(init.take(b) =~= s.take(b));
        assert forall|i: int| b <= i < s.len() implies invoke::is_whitespace(#[trigger] s[i]) by {
            if i < init.len() {
                assert(init[i] == s[i]);
            }
        }
        b
    } else {
        assert(s.take(s.len() as int) =~= s);
        s.len() as int
    }
}

/// To trim a text is to take off the white space before and after it, all of it and nothing else.
pub proof fn law_trimming_takes_off_white_space(s: Seq<char>)
    ensures
        exists|a: int, b: int| #[trigger]
            is_core(s, a, b) && invoke::trimmed(s) == s.subrange(a, b),
{
    let a = lemma_trim_front(s);
    let t = s.skip(a);
    let b = lemma_trim_back(t);
    assert(t.take(b) =~= s.subrange(a, a + b));
    assert forall|i: int| a + b <= i < s.len() implies invoke::is_whitespace(#[trigger] s[i]) by {
        assert(t[i - a] == s[i]);
    }
    if b > 0 {
        assert(t[b - 1] == s[a + b - 1]);
    }
    assert(is_core(s, a, a + b));
}

/// Blanks, tabs and ends of line are white space; letters, digits and what is written between
/// them are not.
pub proof fn law_what_white_space_is(c: char)
    ensures
        c == ' ' || c == '\t' || c == '\n' || c == '\r' ==> invoke::is_whitespace(c),
        '!' <= c <= '~' ==> !invoke::is_whitespace(c),
{
}

/// Each parameter is given its argument: a sole string the whole text as it stands, a sole other
/// one the whole text to be read; more than one what stands between the commas, without the white
/// space around it. It fails exactly where there is nothing for a sole parameter, or fewer pieces
/// than parameters.
pub proof fn law_each_parameter_has_its_argument(s: Seq<char>, params: Seq<ParamKind>, i: int)
    requires
        params.len() <= usize::MAX,
    ensures
        ({
            let read = invoke::args_for(s, params);
            let pieces = invoke::cut(s, params.len());
            &&& read matches Ok(args) ==> args.len() == params.len()
            &&& params.len() == 0 ==> read is Ok
            &&& params.len() == 1 ==> (read is Err <==> s.len() == 0)
            &&& params.len() == 1 && s.len() == 0 ==> read == Err::<Seq<ArgView>, ArgError>(
                ArgError::Missing,
            )
            &&& params.len() == 1 && s.len() > 0 ==> read->Ok_0[0] == (if params[0] is Text {
                ArgView::Raw(s)
            } else {
                ArgView::Wave(s)
            })
            &&& params.len() > 1 ==> (read is Err <==> pieces.len() < params.len())
            &&& params.len() > 1 && read is Err ==> read == Err::<Seq<ArgView>, ArgError>(
                ArgError::WrongCount {
                    expected: params.len() as usize,
                    got: pieces.len() as usize,
                },
            )
            &&& params.len() > 1 && read is Ok && 0 <= i < params.len() ==> read->Ok_0[i]
                == ArgView::Wave(invoke::trimmed(pieces[i]))
        }),
{
    if params.len() > 0 {
        law_cutting_loses_nothing(s, params.len());
    }
}

/// An export has a function `start` in it.
pub open spec fn offers_start(e: ExportView) -> bool {
    match e {
        ExportView::Instance(_, exports) => exports.contains("start"@),
        ExportView::CoreFunc(name) => name == "start"@,
        ExportView::Other => false,
    }
}

/// Where the function `start` of an export is found.
pub open spec fn start_in(e: ExportView) -> Seq<char> {
    match e {
        ExportView::Instance(name, _) => name + "/start"@,
        _ => "start"@,
    }
}

proof fn lemma_instance(name: Seq<char>, exports: Seq<Seq<char>>)
    ensures
        ({
            let paths = invoke::instance_paths(name, exports);
            &&& forall|i: int| 0 <= i < paths.len() ==> #[trigger] paths[i] == name + "/start"@
            &&& paths.len() > 0 <==> exports.contains("start"@)
        }),
    decreases exports.len(),
{
    if exports.len() > 0 {
        let init = exports.drop_last();
        lemma_instance(name, init);
        if exports.last() == "start"@ {
            assert(exports[exports.len() - 1] == "start"@);
        } else if init.contains("start"@) {
            let k = choose|k: int| 0 <= k < init.len() && init[k] == "start"@;
            assert(exports[k] == "start"@);
        } else if exports.contains("start"@) {
            let k = choose|k: int| 0 <= k < exports.len() && exports[k] == "start"@;
            assert(init[k] == "start"@);
        }
    }
}

/// A component is started by `start` itself if it can be, else by a `start` in what it exports:
/// every such one is tried, and nothing else. What is exported first is tried first.
pub proof fn law_where_start_is_looked_for(exports: Seq<ExportView>, e: ExportView, path: Seq<char>)
    ensures
        ({
            let paths = invoke::start_paths(exports);
            &&& paths.len() > 0 && paths[0] == "start"@
            &&& exports.contains(e) && offers_start(e) ==> paths.contains(start_in(e))
            &&& paths.contains(path) ==> path == "start"@ || exists|k: int|
                0 <= k < exports.len() && offers_start(#[trigger] exports[k]) && start_in(
                    exports[k],
                ) == path
            &&& forall|k: int|
                0 <= k <= exports.len() ==> invoke::start_paths(#[trigger] exports.take(k)).len()
                    <= paths.len() && paths.take(
                    invoke::start_paths(exports.take(k)).len() as int,
                ) == invoke::start_paths(exports.take(k))
        }),
    decreases exports.len(),
{
    let paths = invoke::start_paths(exports);
    if exports.len() == 0 {
        assert forall|k: int| 0 <= k <= exports.len() implies invoke::start_paths(
            #[trigger] exports.take(k),
        ).len() <= paths.len() && paths.take(invoke::start_paths(exports.take(k)).len() as int)
            == invoke::start_paths(exports.take(k)) by {
            assert(exports.take(k) =~= exports);
            assert(paths.take(paths.len() as int) =~= paths);
        }
    } else {
        let init = exports.drop_last();
        let last = exports.last();
        let before = invoke::start_paths(init);
        let added = invoke::export_paths(last);
        law_where_start_is_looked_for(init, e, path);
        match last {
            ExportView::Instance(name, inner) => {
                lemma_instance(name, inner);
            },
            _ => {},
        }
        assert forall|i: int| 0 <= i < added.len() implies #[trigger] added[i] == start_in(last)
            && offers_start(last) by {}
        if exports.contains(e) && offers_start(e) {
            let k = choose|k: int| 0 <= k < exports.len() && exports[k] == e;
            if k < init.len() {
                assert(init[k] == e);
                let i = choose|i: int| 0 <= i < before.len() && before[i] == start_in(e);
                assert(paths[i] == start_in(e));
            } else {
                assert(added.len() > 0);
                assert(paths[before.len() as int] == added[0]);
            }
        }
        if paths.contains(path) && path != "start"@ {
            let i = choose|i: int| 0 <= i < paths.len() && paths[i] == path;
            if i < before.len() {
                assert(before[i] == path);
                assert(before.contains(path));
                let k = choose|k: int|
                    0 <= k < init.len() && offers_start(#[trigger] init[k]) && start_in(init[k])
                        == path;
                assert(exports[k] == init[k]);
            } else {
                assert(added[i - before.len()] == path);
                assert(exports[exports.len() - 1] == last);
            }
        }
        assert forall|k: int| 0 <= k <= exports.len() implies invoke::start_paths(
            #[trigger] exports.take(k),
        ).len() <= paths.len() && paths.take(invoke::start_paths(exports.take(k)).len() as int)
            == invoke::start_paths(exports.take(k)) by {
            if k == exports.len() {
                assert(exports.take(k) =~= exports);
                assert(paths.take(paths.len() as int) =~= paths);
            } else {
                assert(exports.take(k) =~= init.take(k));
                let n = invoke::start_paths(init.take(k)).len() as int;
                assert(paths.take(n) =~= before.take(n));
            }
        }
    }
}

/// The name of a component is accepted exactly where it is lower-case letters, digits and
/// hyphens, begins with a letter and does not end with a hyphen; and what is wrong with another
/// one is said.
pub proof fn law_which_names_are_accepted(s: Seq<char>)
    ensures
        ({
            let fault = scaffold::name_fault(s);
            let clean = forall|i: int|
                0 <= i < s.len() ==> ('a' <= #[trigger] s[i] <= 'z' || '0' <= s[i] <= '9' || s[i]
                    == '-');
            &&& fault is None <==> s.len() > 0 && 'a' <= s[0] <= 'z' && clean && s.last() != '-'
            &&& fault == Some(NameError::Empty) <==> s.len() == 0
            &&& fault == Some(NameError::BadStart) <==> s.len() > 0 && !('a' <= s[0] <= 'z')
            &&& fault == Some(NameError::BadCharacter) <==> s.len() > 0 && 'a' <= s[0] <= 'z'
                && !clean
            &&& fault == Some(NameError::TrailingHyphen) <==> s.len() > 0 && 'a' <= s[0] <= 'z'
                && clean && s.last() == '-'
        }),
{
    let clean = forall|i: int|
        0 <= i < s.len() ==> ('a' <= #[trigger] s[i] <= 'z' || '0' <= s[i] <= '9' || s[i] == '-');
    if !clean {
        let i = choose|i: int|
            0 <= i < s.len() && !('a' <= #[trigger] s[i] <= 'z' || '0' <= s[i] <= '9' || s[i]
                == '-');
        assert(!scaffold::is_name_char(s[i]));
    }
    if exists|i: int| 0 <= i < s.len() && !scaffold::is_name_char(#[trigger] s[i]) {
        let i = choose|i: int| 0 <= i < s.len() && !scaffold::is_name_char(#[trigger] s[i]);
        assert(!('a' <= s[i] <= 'z' || '0' <= s[i] <= '9' || s[i] == '-'));
    }
}

/// Each word between hyphens is written with a capital, and the hyphens are left out.
pub proof fn law_words_are_capitalised(a: Seq<char>, word: Seq<char>)
    requires
        forall|i: int| 0 <= i < word.len() ==> #[trigger] word[i] != '-',
    ensures
        scaffold::pascal(a.push('-')) == scaffold::pascal(a),
        word.len() > 0 ==> scaffold::pascal(word) == scaffold::uppercase(word[0]) + word.skip(1),
        word.len() > 0 ==> scaffold::pascal(a.push('-') + word) == scaffold::pascal(a)
            + scaffold::uppercase(word[0]) + word.skip(1),
    decreases word.len(),
{
    assert(a.push('-').drop_last() =~= a);
    if word.len() > 0 {
        let init = word.drop_last();
        let b = a.push('-');
        assert forall|i: int| 0 <= i < init.len() implies #[trigger] init[i] != '-' by {
            assert(init[i] == word[i]);
        }
        law_words_are_capitalised(a, init);
        assert((b + word).drop_last() =~= b + init);
        assert((b + word).last() == word.last());
        assert(word[word.len() - 1] != '-');
        if init.len() == 0 {
            assert(b + init =~= b);
            assert(word.skip(1) =~= Seq::<char>::empty());
            assert((b + word)[(b + word).len() - 2] == '-');
            assert(scaffold::pascal(init) =~= Seq::<char>::empty());
            assert(scaffold::pascal(word) =~= scaffold::uppercase(word[0]) + word.skip(1));
            assert(scaffold::pascal(b + word) =~= scaffold::pascal(a) + scaffold::uppercase(word[0])
                + word.skip(1));
        } else {
            assert((b + word)[(b + word).len() - 2] == word[word.len() - 2]);
            assert(word[word.len() - 2] != '-');
            assert(word.skip(1) =~= init.skip(1).push(word.last()));
            assert(scaffold::pascal(word) =~= scaffold::uppercase(word[0]) + word.skip(1));
            assert(scaffold::pascal(b + word) =~= scaffold::pascal(a) + scaffold::uppercase(word[0])
                + word.skip(1));
        }
    }
}

/// Hyphens become underscores, and everything else stays.
pub proof fn law_only_hyphens_are_underscored(s: Seq<char>, i: int)
    requires
        0 <= i < s.len(),
    ensures
        scaffold::underscored(s).len() == s.len(),
        s[i] == '-' ==> scaffold::underscored(s)[i] == '_',
        s[i] != '-' ==> scaffold::underscored(s)[i] == s[i],
{
}

/// An application takes the node down with it by its type: a permanent one always, a transient one
/// when it failed, a temporary one never.
pub proof fn law_what_takes_the_node_down(t: RestartType, abnormal: bool)
    ensures
        t is Permanent ==> app::stops_node(t, abnormal),
        t is Transient ==> (app::stops_node(t, abnormal) <==> abnormal),
        t is Temporary ==> !app::stops_node(t, abnormal),
{
}

/// A manifest is read as it is written: its name and its root must be texts, its arguments are a
/// text or left out, and its type is one of three words or left out.
pub proof fn law_manifests_are_read_as_written(
    m: Map<Seq<char>, (Option<Seq<char>>, Option<Seq<(Seq<char>, Option<usize>)>>)>,
)
    ensures
        ({
            let typed = m.contains_key("type"@);
            let word = m["type"@].0;
            let good_type = !typed || word == Some("permanent"@) || word == Some("transient"@)
                || word == Some("temporary"@);
            let good = m.contains_key("name"@) && m["name"@].0 is Some && m.contains_key("root"@)
                && m["root"@].0 is Some && (m.contains_key("init_args"@) ==> m["init_args"@].0
                is Some);
            &&& app::manifest_of(m) is Some ==> good
            &&& good && good_type ==> app::manifest_of(m) is Some
            &&& typed && word is Some && !good_type ==> app::manifest_of(m) is None
            &&& app::manifest_of(m) matches Some(v) ==> {
                &&& m["name"@].0 == Some(v.name)
                &&& m["root"@].0 == Some(v.root)
                &&& m.contains_key("init_args"@) ==> m["init_args"@].0 == Some(v.init_args)
                &&& !m.contains_key("init_args"@) ==> v.init_args.len() == 0
                &&& !typed ==> v.restart_type is Permanent
                &&& typed && word is Some ==> (v.restart_type is Permanent <==> word == Some(
                    "permanent"@,
                ))
                &&& typed && word is Some ==> (v.restart_type is Transient <==> word == Some(
                    "transient"@,
                ))
                &&& typed && word is Some ==> (v.restart_type is Temporary <==> word == Some(
                    "temporary"@,
                ))
            }
        }),
{
    reveal_strlit("permanent");
    reveal_strlit("transient");
    reveal_strlit("temporary");
    assert("permanent"@[0] != "transient"@[0]);
    assert("permanent"@[0] != "temporary"@[0]);
    assert("transient"@[1] != "temporary"@[1]);
}

/// A type may also be written as a table with one word in it that holds nothing; any other table
/// is no type, and neither is anything that is not a text or a table.
pub proof fn law_types_can_be_tables(
    m: Map<Seq<char>, (Option<Seq<char>>, Option<Seq<(Seq<char>, Option<usize>)>>)>,
    plain: Map<Seq<char>, (Option<Seq<char>>, Option<Seq<(Seq<char>, Option<usize>)>>)>,
    t: Seq<(Seq<char>, Option<usize>)>,
)
    requires
        m.contains_key("type"@),
        m["type"@].0 is None,
    ensures
        m["type"@].1 == Some(t) && t.len() == 1 && t[0].1 == Some(0usize) && plain == m.insert(
            "type"@,
            (Some(t[0].0), None),
        ) ==> app::manifest_of(m) == app::manifest_of(plain),
        m["type"@].1 == Some(t) && !(t.len() == 1 && t[0].1 == Some(0usize)) ==> app::manifest_of(m)
            is None,
        m["type"@].1 is None ==> app::manifest_of(m) is None,
{
    reveal_strlit("type");
    reveal_strlit("name");
    reveal_strlit("root");
    reveal_strlit("init_args");
    assert("type"@[0] == 't' && "name"@[0] == 'n' && "root"@[0] == 'r' && "init_args"@[0] == 'i');
}

/// A manifest is read from a document that can be read whole, and from no other.
pub proof fn law_manifests_come_from_readable_documents(src: Seq<char>, v: ManifestView)
    ensures
        app::manifest_in(src) == Some(v) <==> app::toml_readable(src) && (app::toml_entries(
            src,
        ) matches Some(m) && app::manifest_of(m) == Some(v)),
{
}

/// What is generated for a component begins with the component's own name.
pub proof fn law_generated_texts_name_the_component(namespace: Seq<char>, name: Seq<char>)
    ensures
        host::has_prefix(
            scaffold::cargo_toml_text(namespace, name),
            scaffold::CARGO_NAME@ + name + scaffold::CARGO_PACKAGE@ + namespace + ":"@ + name,
        ),
        host::has_prefix(
            scaffold::lib_rs_text(name),
            scaffold::LIB_STRUCT@ + scaffold::pascal(name) + scaffold::LIB_IMPL@
                + scaffold::pascal(name),
        ),
        host::has_prefix(
            scaffold::wit_text(namespace, name),
            "package "@ + namespace + ":"@ + name,
        ),
        cli::has_suffix(
            scaffold::wit_text(namespace, name),
            scaffold::underscored(name) + scaffold::WIT_END@,
        ),
{
    let cargo = scaffold::CARGO_NAME@ + name + scaffold::CARGO_PACKAGE@ + namespace + ":"@ + name;
    assert(scaffold::cargo_toml_text(namespace, name).take(cargo.len() as int) =~= cargo);
    let lib = scaffold::LIB_STRUCT@ + scaffold::pascal(name) + scaffold::LIB_IMPL@
        + scaffold::pascal(name);
    assert(scaffold::lib_rs_text(name).take(lib.len() as int) =~= lib);
    let wit = scaffold::wit_text(namespace, name);
    let front = "package "@ + namespace + ":"@ + name;
    assert(wit.take(front.len() as int) =~= front);
    let back = scaffold::underscored(name) + scaffold::WIT_END@;
    assert(wit.skip(wit.len() - back.len()) =~= back);
}

} // verus!
