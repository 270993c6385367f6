//! A first look at the arguments of the program, before they are parsed.

use crate::edit_distance::{edit_distance, levenshtein_distance};
use crate::text::{
    before_first, begins_with, contains_text, has_char, join, joined, lowered, opt_view, same,
    split_once, to_lower, views,
};
use vstd::prelude::*;

verus! {

/// The name of the program.
pub open spec fn program_name() -> Seq<char> {
    "openusage-cli"@
}

/// The commands that the program knows.
pub open spec fn command_names() -> Seq<Seq<char>> {
    seq![
        "run-daemon"@,
        "query"@,
        "show-default-config"@,
        "install-systemd-unit"@,
        "version"@,
        "help"@,
    ]
}

/// The commands that the program knows.
pub fn known_commands() -> (r: Vec<String>)
    ensures
        views(r@) == command_names(),
{
    let mut names: Vec<String> = Vec::new();
    names.push("run-daemon".to_string());
    names.push("query".to_string());
    names.push("show-default-config".to_string());
    names.push("install-systemd-unit".to_string());
    names.push("version".to_string());
    names.push("help".to_string());
    assert(views(names@) =~= command_names());
    names
}

/// True for the flags that ask for help or for the version.
pub open spec fn is_help_or_version(arg: Seq<char>) -> bool {
    arg == "--help"@ || arg == "-h"@ || arg == "--version"@ || arg == "-V"@
}

/// True if the arguments ask for help or for the version.
pub open spec fn asks_help_or_version(args: Seq<Seq<char>>) -> bool {
    exists|i: int| 0 <= i < args.len() && #[trigger] is_help_or_version(args[i])
}

/// True for options that take the next argument as their value.
pub open spec fn takes_value(name: Seq<char>) -> bool {
    name == "--host"@ || name == "--port"@ || name == "--plugins-dir"@ || name
        == "--enabled-plugins"@ || name == "--app-data-dir"@ || name == "--plugin-overrides-dir"@
        || name == "--refresh-interval-secs"@ || name == "--existing-instance"@ || name
        == "--service-mode"@ || name == "--log-level"@ || name == "--type"@
}

/// True for options that take the next argument as their value if it is a truth value.
pub open spec fn may_take_value(name: Seq<char>) -> bool {
    name == "--foreground"@ || name == "--with-state"@
}

/// True for truth values.
pub open spec fn is_truth_value(value: Seq<char>) -> bool {
    value == "true"@ || value == "false"@
}

/// The number of arguments that an option stands for, itself and its value.
pub open spec fn option_width(args: Seq<Seq<char>>, index: int) -> int {
    let token = args[index];
    let name = before_first(token, '=');
    if token.contains('=') {
        1
    } else if takes_value(name) {
        2
    } else if may_take_value(name) && index + 1 < args.len() && is_truth_value(args[index + 1]) {
        2
    } else {
        1
    }
}

/// The place of the first argument, from a place on, that is neither an option nor the
/// value of one; after `--` it is the next argument, whatever that looks like.
pub open spec fn first_positional(args: Seq<Seq<char>>, index: int) -> Option<int>
    decreases
            (if index < args.len() {
                args.len() - index
            } else {
                0
            }),
{
    if index >= args.len() || index < 0 {
        None
    } else if args[index] == "--"@ {
        if index + 1 < args.len() {
            Some(index + 1)
        } else {
            None
        }
    } else if !(args[index].len() > 0 && args[index][0] == '-') {
        Some(index)
    } else {
        first_positional(args, index + option_width(args, index))
    }
}

/// True for options that take the next argument as their value.
pub fn option_requires_separate_value(option: &str) -> (r: bool)
    ensures
        r == takes_value(before_first(option@, '=')),
{
    let name = option_name(option);
    let name = name.as_str();
    same(name, "--host") || same(name, "--port") || same(name, "--plugins-dir") || same(
        name,
        "--enabled-plugins",
    ) || same(name, "--app-data-dir") || same(name, "--plugin-overrides-dir") || same(
        name,
        "--refresh-interval-secs",
    ) || same(name, "--existing-instance") || same(name, "--service-mode") || same(
        name,
        "--log-level",
    ) || same(name, "--type")
}

/// True for options that take the next argument as their value if it is a truth value.
pub fn option_optionally_consumes_separate_value(option: &str) -> (r: bool)
    ensures
        r == may_take_value(before_first(option@, '=')),
{
    let name = option_name(option);
    same(name.as_str(), "--foreground") || same(name.as_str(), "--with-state")
}

/// True for truth values.
pub fn is_explicit_bool_value(value: &str) -> (r: bool)
    ensures
        r == is_truth_value(value@),
{
    same(value, "true") || same(value, "false")
}

fn option_name(option: &str) -> (r: String)
    ensures
        r@ == before_first(option@, '='),
{
    match split_once(option, '=') {
        Some((name, _)) => name,
        None => {
            proof {
                lemma_before_absent(option@, '=');
            }
            option.to_string()
        },
    }
}

proof fn lemma_before_absent(s: Seq<char>, c: char)
    requires
        !s.contains(c),
    ensures
        before_first(s, c) == s,
    decreases s.len(),
{
    if s.len() > 0 {
        assert(s[0] != c) by {
            if s[0] == c {
                assert(s.contains(c));
            }
        }
        let rest = s.drop_first();
        assert(!rest.contains(c)) by {
            if rest.contains(c) {
                let k = choose|k: int| 0 <= k < rest.len() && rest[k] == c;
                assert(s[k + 1] == c);
            }
        }
        lemma_before_absent(rest, c);
        assert(s =~= seq![s[0]] + rest);
    } else {
        assert(before_first(s, c) =~= s);
    }
}

/// The place of the first argument that is neither an option nor the value of one.
pub fn first_positional_index(raw_args: &Vec<String>) -> (r: Option<usize>)
    ensures
        match r {
            Some(i) => first_positional(views(raw_args@), 0) == Some(i as int) && i
                < raw_args@.len(),
            None => first_positional(views(raw_args@), 0) is None,
        },
{
    let ghost args = views(raw_args@);
    let mut index: usize = 0;
    while index < raw_args.len()
        invariant
            args == views(raw_args@),
            first_positional(args, 0) == first_positional(args, index as int),
        decreases raw_args@.len() - index,
    {
        assert(args[index as int] == raw_args@[index as int]@);
        let token = raw_args[index].as_str();
        if same(token, "--") {
            return if index + 1 < raw_args.len() {
                Some(index + 1)
            } else {
                None
            };
        }
        if !begins_with(token, '-') {
            return Some(index);
        }
        let bare = !has_char(token, '=');
        let next = index + 1;
        if bare && option_requires_separate_value(token) {
            if next >= raw_args.len() {
                assert(first_positional(args, index + 2) is None);
                return None;
            }
            index = next + 1;
        } else if bare && option_optionally_consumes_separate_value(token) && next
            < raw_args.len() && is_explicit_bool_value(raw_args[next].as_str()) {
            assert(args[next as int] == raw_args@[next as int]@);
            index = next + 1;
        } else {
            assert(next < raw_args@.len() ==> args[next as int] == raw_args@[next as int]@);
            index = next;
        }
    }
    None
}

/// The first argument that is neither an option nor the value of one.
pub open spec fn positional_token(args: Seq<Seq<char>>) -> Option<Seq<char>> {
    match first_positional(args, 0) {
        Some(i) => Some(args[i]),
        None => None,
    }
}

/// The first argument that is neither an option nor the value of one.
pub fn first_positional_token(raw_args: &Vec<String>) -> (r: Option<String>)
    ensures
        opt_view(r) == positional_token(views(raw_args@)),
{
    match first_positional_index(raw_args) {
        Some(i) => Some(raw_args[i].clone()),
        None => None,
    }
}

/// True if there is an argument that is neither an option nor the value of one.
pub fn raw_args_contains_positional(raw_args: &Vec<String>) -> (r: bool)
    ensures
        r == first_positional(views(raw_args@), 0) is Some,
{
    first_positional_index(raw_args).is_some()
}

/// True if the arguments ask for help or for the version.
pub fn contains_global_help_or_version_flag(raw_args: &Vec<String>) -> (r: bool)
    ensures
        r == asks_help_or_version(views(raw_args@)),
{
    let ghost args = views(raw_args@);
    let mut i: usize = 0;
    while i < raw_args.len()
        invariant
            i <= raw_args@.len(),
            args == views(raw_args@),
            forall|j: int| 0 <= j < i ==> !#[trigger] is_help_or_version(args[j]),
        decreases raw_args@.len() - i,
    {
        assert(args[i as int] == raw_args@[i as int]@);
        let arg = raw_args[i].as_str();
        if same(arg, "--help") || same(arg, "-h") || same(arg, "--version") || same(arg, "-V") {
            assert(is_help_or_version(args[i as int]));
            return true;
        }
        i = i + 1;
    }
    false
}

/// True if the arguments leave it open what to do, so that the program is to be queried.
pub open spec fn defaults_to_query(args: Seq<Seq<char>>) -> bool {
    args.len() == 0 || (!asks_help_or_version(args) && first_positional(args, 0) is None)
}

/// True if the arguments leave it open what to do.
pub fn should_insert_default_query_mode(raw_args: &Vec<String>) -> (r: bool)
    ensures
        r == defaults_to_query(views(raw_args@)),
{
    if raw_args.len() == 0 {
        return true;
    }
    if contains_global_help_or_version_flag(raw_args) {
        return false;
    }
    !raw_args_contains_positional(raw_args)
}

/// The arguments with the name of the program in front, and with the command where they
/// leave it open.
pub open spec fn args_with_mode(args: Seq<Seq<char>>) -> Seq<Seq<char>> {
    seq![program_name()] + (if defaults_to_query(args) {
        seq!["query"@]
    } else {
        Seq::empty()
    }) + args
}

/// The arguments with the name of the program in front, and with the command where they
/// leave it open.
pub fn cli_args_with_default_mode(raw_args: &Vec<String>) -> (r: Vec<String>)
    ensures
        views(r@) == args_with_mode(views(raw_args@)),
{
    let mut args: Vec<String> = Vec::new();
    args.push("openusage-cli".to_string());
    if should_insert_default_query_mode(raw_args) {
        args.push("query".to_string());
    }
    let ghost head = args@;
    let mut rest = crate::text::clone_strings(raw_args);
    args.append(&mut rest);
    assert(views(args@) =~= views(head) + views(raw_args@));
    assert(views(head) =~= seq![program_name()] + (if defaults_to_query(views(raw_args@)) {
        seq!["query"@]
    } else {
        Seq::empty()
    }));
    args
}

/// The arguments are only ever added to in front: they are all handed on, in their order.
pub proof fn law_arguments_are_kept(args: Seq<Seq<char>>)
    ensures
        args_with_mode(args).len() >= args.len(),
        args_with_mode(args).skip(args_with_mode(args).len() - args.len()) == args,
        args_with_mode(args)[0] == program_name(),
{
    let all = args_with_mode(args);
    assert(all.skip(all.len() - args.len()) =~= args);
}

/// The place of the command that is closest to a text, the first of several.
pub open spec fn closest(text: Seq<char>, commands: Seq<Seq<char>>) -> int
    decreases commands.len(),
{
    if commands.len() <= 1 {
        0
    } else {
        let before = closest(text, commands.drop_last());
        if edit_distance(text, commands.last()) < edit_distance(text, commands[before]) {
            commands.len() - 1
        } else {
            before
        }
    }
}

/// True if no command is closer to a text than the one in place `i`, and every one before it
/// is further away.
pub open spec fn is_first_closest(text: Seq<char>, commands: Seq<Seq<char>>, i: int) -> bool {
    &&& 0 <= i < commands.len()
    &&& forall|j: int|
        0 <= j < commands.len() ==> edit_distance(text, commands[i]) <= edit_distance(
            text,
            #[trigger] commands[j],
        )
    &&& forall|j: int|
        0 <= j < i ==> edit_distance(text, commands[i]) < edit_distance(
            text,
            #[trigger] commands[j],
        )
}

pub(crate) proof fn lemma_closest_is_first(text: Seq<char>, commands: Seq<Seq<char>>)
    requires
        commands.len() > 0,
    ensures
        is_first_closest(text, commands, closest(text, commands)),
    decreases commands.len(),
{
    if commands.len() > 1 {
        let init = commands.drop_last();
        lemma_closest_is_first(text, init);
        assert forall|j: int| 0 <= j < init.len() implies #[trigger] commands[j] == init[j] by {}
    }
}

/// A command that is suggested is the first of those that are closest to the input, and not
/// further from it than suggestions may be.
pub proof fn law_suggestion_is_the_first_of_the_closest(input: Seq<char>)
    ensures
        suggestion(input) matches Some(command) ==> exists|i: int| #[trigger]
            is_first_closest(lowered(input), command_names(), i) && command == command_names()[i]
                && edit_distance(lowered(input), command) <= suggestion_threshold(
                if lowered(input).len() >= command.len() {
                    lowered(input).len()
                } else {
                    command.len()
                },
            ),
{
    lemma_closest_is_first(lowered(input), command_names());
}

/// The distance up to which a command is suggested, by the length of the longer text.
pub open spec fn suggestion_threshold(longer: nat) -> nat {
    if longer <= 4 {
        1
    } else if longer <= 8 {
        2
    } else {
        3
    }
}

/// The command that may have been meant.
pub open spec fn suggestion(input: Seq<char>) -> Option<Seq<char>> {
    let text = lowered(input);
    let command = command_names()[closest(text, command_names())];
    let longer = if text.len() >= command.len() {
        text.len()
    } else {
        command.len()
    };
    if edit_distance(text, command) <= suggestion_threshold(longer) {
        Some(command)
    } else {
        None
    }
}

/// The command that may have been meant.
pub fn find_similar_command(input: &str) -> (r: Option<String>)
    ensures
        opt_view(r) == suggestion(input@),
{
    let text = to_lower(input);
    let commands = known_commands();
    let ghost names = command_names();
    let mut best: usize = 0;
    let mut distance = levenshtein_distance(text.as_str(), commands[0].as_str());
    assert(names[0] == commands@[0]@);
    assert(names.len() == 6);
    assert(commands@.len() == views(commands@).len());
    let mut i: usize = 1;
    assert(closest(text@, names.take(1)) == 0);
    while i < commands.len()
        invariant
            1 <= i <= commands@.len(),
            names == views(commands@),
            best < i,
            best == closest(text@, names.take(i as int)),
            distance == edit_distance(text@, names[best as int]),
        decreases commands@.len() - i,
    {
        let ghost next = names.take(i + 1);
        assert(next.drop_last() =~= names.take(i as int));
        assert(next.last() == commands@[i as int]@);
        assert(next[best as int] == names[best as int]);
        let candidate = levenshtein_distance(text.as_str(), commands[i].as_str());
        if candidate < distance {
            best = i;
            distance = candidate;
        }
        i = i + 1;
    }
    assert(names.take(names.len() as int) =~= names);
    assert(names[best as int] == commands@[best as int]@);
    let length = text.as_str().unicode_len();
    let command_length = commands[best].as_str().unicode_len();
    let longer = if length >= command_length {
        length
    } else {
        command_length
    };
    let threshold: usize = if longer <= 4 {
        1
    } else if longer <= 8 {
        2
    } else {
        3
    };
    if distance <= threshold {
        Some(commands[best].clone())
    } else {
        None
    }
}

/// The complaint about a command that the program does not know.
pub open spec fn unknown_command(args: Seq<Seq<char>>) -> Option<Seq<char>> {
    if asks_help_or_version(args) {
        None
    } else {
        match positional_token(args) {
            None => None,
            Some(command) => if command_names().contains(command) {
                None
            } else {
                match suggestion(command) {
                    Some(similar) => Some(
                        "unknown command "@ + command + ". Did you mean "@ + similar
                            + "? Known commands: "@ + joined(command_names(), ", "@),
                    ),
                    None => Some(
                        "unknown command "@ + command + ". Use one of the known commands: "@
                            + joined(command_names(), ", "@),
                    ),
                }
            },
        }
    }
}

/// The complaint about a command that the program does not know.
pub fn unknown_command_error(raw_args: &Vec<String>) -> (r: Option<String>)
    ensures
        opt_view(r) == unknown_command(views(raw_args@)),
{
    if contains_global_help_or_version_flag(raw_args) {
        return None;
    }
    let command = match first_positional_token(raw_args) {
        Some(command) => command,
        None => {
            return None;
        },
    };
    let commands = known_commands();
    if contains_text(&commands, command.as_str()) {
        return None;
    }
    let list = join(&commands, ", ");
    let mut message = "unknown command ".to_string();
    message.append(command.as_str());
    match find_similar_command(command.as_str()) {
        Some(similar) => {
            message.append(". Did you mean ");
            message.append(similar.as_str());
            message.append("? Known commands: ");
        },
        None => {
            message.append(". Use one of the known commands: ");
        },
    }
    message.append(list.as_str());
    Some(message)
}

} // verus!
