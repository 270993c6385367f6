//! How the arguments of the program are looked at, whatever they are.

use crate::cli_preparse::{
    asks_help_or_version, cli_args_with_default_mode, closest, command_names,
    contains_global_help_or_version_flag, find_similar_command, first_positional,
    first_positional_index, first_positional_token, is_explicit_bool_value, known_commands,
    lemma_closest_is_first, option_optionally_consumes_separate_value,
    option_requires_separate_value, option_width, raw_args_contains_positional,
    should_insert_default_query_mode, unknown_command_error,
};
use crate::edit_distance::{
    edit_distance, law_distance_is_zero_for_equal_texts, levenshtein_distance,
};
use crate::text::{joined, lowered, views};
use crate::text_laws::{law_first_occurrence_parts, law_missing_character_parts_nothing};
use vstd::prelude::*;

verus! {

/// The commands of the program, in their order.
pub proof fn law_commands_are_known(r: Vec<String>)
    requires
        call_ensures(known_commands, (), r),
    ensures
        r@.len() == 6,
        r@[0]@ == "run-daemon"@,
        r@[1]@ == "query"@,
        r@[2]@ == "show-default-config"@,
        r@[3]@ == "install-systemd-unit"@,
        r@[4]@ == "version"@,
        r@[5]@ == "help"@,
{
    let all = views(r@);
    assert(all.len() == r@.len());
    assert(all[0] == r@[0]@ && all[1] == r@[1]@ && all[2] == r@[2]@ && all[3] == r@[3]@ && all[4]
        == r@[4]@ && all[5] == r@[5]@);
}

/// True if an option has a name, whether or not a value is put behind it.
pub open spec fn has_name(option: Seq<char>, name: Seq<char>, value: Seq<char>) -> bool {
    !name.contains('=') && (option == name || option == name + seq!['='] + value)
}

/// The options that need a value, and those that may have one, are known by their names.
pub proof fn law_options_with_values_are_known(
    option: &str,
    name: Seq<char>,
    value: Seq<char>,
    needs: bool,
    may: bool,
)
    requires
        call_ensures(option_requires_separate_value, (option,), needs),
        call_ensures(option_optionally_consumes_separate_value, (option,), may),
        has_name(option@, name, value),
    ensures
        needs <==> (name == "--host"@ || name == "--port"@ || name == "--plugins-dir"@ || name
            == "--enabled-plugins"@ || name == "--app-data-dir"@ || name
            == "--plugin-overrides-dir"@ || name == "--refresh-interval-secs"@ || name
            == "--existing-instance"@ || name == "--service-mode"@ || name == "--log-level"@ || name
            == "--type"@),
        may <==> (name == "--foreground"@ || name == "--with-state"@),
{
    if option@ == name {
        law_missing_character_parts_nothing(option@, '=');
    } else {
        law_first_occurrence_parts(option@, name, value, '=');
    }
}

/// Truth values are written in small letters.
pub proof fn law_truth_values_are_two(value: &str, r: bool)
    requires
        call_ensures(is_explicit_bool_value, (value,), r),
    ensures
        r <==> value@ == "true"@ || value@ == "false"@,
{
}

/// Help and the version are asked for by four flags, wherever they stand.
pub proof fn law_help_is_asked_for_anywhere(args: &Vec<String>, r: bool)
    requires
        call_ensures(contains_global_help_or_version_flag, (args,), r),
    ensures
        r <==> exists|i: int| 0 <= i < args@.len() && asks(#[trigger] args@[i]@),
{
    let all = views(args@);
    assert(all.len() == args@.len());
    if asks_help_or_version(all) {
        let i = choose|i: int|
            0 <= i < all.len() && #[trigger] crate::cli_preparse::is_help_or_version(all[i]);
        assert(asks(args@[i]@));
    }
    if exists|i: int| 0 <= i < args@.len() && asks(#[trigger] args@[i]@) {
        let i = choose|i: int| 0 <= i < args@.len() && asks(#[trigger] args@[i]@);
        assert(crate::cli_preparse::is_help_or_version(all[i]));
    }
}

/// True for the flags that ask for help or for the version.
pub open spec fn asks(arg: Seq<char>) -> bool {
    arg == "--help"@ || arg == "-h"@ || arg == "--version"@ || arg == "-V"@
}

proof fn lemma_width_moves(args: Seq<Seq<char>>, k: int, index: int)
    requires
        0 <= k <= index < args.len(),
    ensures
        option_width(args.skip(k), index - k) == option_width(args, index),
{
    let rest = args.skip(k);
    assert(rest[index - k] == args[index]);
    if index + 1 < args.len() {
        assert(rest[index - k + 1] == args[index + 1]);
    }
}

proof fn lemma_positional_moves(args: Seq<Seq<char>>, k: int, index: int)
    requires
        0 <= k <= args.len(),
        k <= index,
    ensures
        first_positional(args, index) == (match first_positional(args.skip(k), index - k) {
            Some(i) => Some(i + k),
            None => None,
        }),
    decreases
            (if index < args.len() {
                args.len() - index
            } else {
                0
            }),
{
    let rest = args.skip(k);
    if index < args.len() {
        assert(rest[index - k] == args[index]);
        if args[index] != "--"@ && args[index].len() > 0 && args[index][0] == '-' {
            lemma_width_moves(args, k, index);
            lemma_positional_moves(args, k, index + option_width(args, index));
        }
    }
}

/// True if an answer is another one, counted from some arguments further.
pub open spec fn is_further(r: Option<usize>, s: Option<usize>, by: int) -> bool {
    match s {
        Some(i) => r matches Some(k) && k == i + by,
        None => r is None,
    }
}

/// The first argument that is no option: options are passed over one by one, with their values
/// where these stand apart. `rest` and `later` are the arguments behind the first and behind
/// the first two, `needs`, `may` and `truth` say what the first and the second are.
pub proof fn law_options_are_passed_over(
    args: &Vec<String>,
    rest: &Vec<String>,
    later: &Vec<String>,
    first: &str,
    second: &str,
    needs: bool,
    may: bool,
    truth: bool,
    r: Option<usize>,
    after_one: Option<usize>,
    after_two: Option<usize>,
)
    requires
        call_ensures(first_positional_index, (args,), r),
        call_ensures(first_positional_index, (rest,), after_one),
        call_ensures(first_positional_index, (later,), after_two),
        args@.len() > 0,
        rest@ == args@.skip(1),
        first@ == args@[0]@,
        args@.len() > 1 ==> second@ == args@[1]@ && later@ == args@.skip(2),
        call_ensures(option_requires_separate_value, (first,), needs),
        call_ensures(option_optionally_consumes_separate_value, (first,), may),
        call_ensures(is_explicit_bool_value, (second,), truth),
    ensures
        first@ == "--"@ ==> r == if args@.len() > 1 {
            Some(1usize)
        } else {
            None
        },
        first@.len() == 0 || first@[0] != '-' ==> r == Some(0usize),
        first@.len() > 0 && first@[0] == '-' && first@ != "--"@ ==> {
            &&& first@.contains('=') ==> is_further(r, after_one, 1)
            &&& !first@.contains('=') && needs && args@.len() == 1 ==> r is None
            &&& !first@.contains('=') && needs && args@.len() > 1 ==> is_further(r, after_two, 2)
            &&& !first@.contains('=') && !needs && may && args@.len() > 1 && truth ==> is_further(
                r,
                after_two,
                2,
            )
            &&& !first@.contains('=') && !needs && !(may && args@.len() > 1 && truth)
                ==> is_further(r, after_one, 1)
        },
{
    let all = views(args@);
    assert(all.len() == args@.len());
    assert(all[0] == args@[0]@);
    assert(views(rest@) =~= all.skip(1));
    lemma_positional_moves(all, 1, 1);
    if args@.len() > 1 {
        assert(all[1] == args@[1]@);
        assert(views(later@) =~= all.skip(2));
        lemma_positional_moves(all, 2, 2);
    } else {
        assert(first_positional(all, 2) is None);
    }
    reveal_strlit("--");
    if first@ == "--"@ {
        assert(first@[0] == '-');
    }
}

/// Without arguments there is none of this kind. The argument itself, and whether there is
/// one, follow its place.
pub proof fn law_first_argument_is_at_its_place(
    args: &Vec<String>,
    place: Option<usize>,
    token: Option<String>,
    there: bool,
)
    requires
        call_ensures(first_positional_index, (args,), place),
        call_ensures(first_positional_token, (args,), token),
        call_ensures(raw_args_contains_positional, (args,), there),
    ensures
        args@.len() == 0 ==> place is None,
        there <==> place is Some,
        place is None ==> token is None,
        place matches Some(i) ==> i < args@.len() && (token matches Some(text) && text@
            == args@[i as int]@),
{
    let all = views(args@);
    assert(all.len() == args@.len());
    match place {
        Some(i) => {
            assert(all[i as int] == args@[i as int]@);
        },
        None => {},
    }
}

/// The program answers a question where the arguments name no command and do not ask for help
/// or the version; with no arguments at all it does so too. All arguments are handed on.
pub proof fn law_question_is_the_default(
    args: &Vec<String>,
    there: bool,
    helps: bool,
    defaults: bool,
    r: Vec<String>,
)
    requires
        call_ensures(raw_args_contains_positional, (args,), there),
        call_ensures(contains_global_help_or_version_flag, (args,), helps),
        call_ensures(should_insert_default_query_mode, (args,), defaults),
        call_ensures(cli_args_with_default_mode, (args,), r),
    ensures
        defaults <==> args@.len() == 0 || (!there && !helps),
        defaults ==> views(r@) == seq!["openusage-cli"@, "query"@] + views(args@),
        !defaults ==> views(r@) == seq!["openusage-cli"@] + views(args@),
{
    assert(views(args@).len() == args@.len());
    if defaults {
        assert(views(r@) =~= seq!["openusage-cli"@, "query"@] + views(args@));
    } else {
        assert(views(r@) =~= seq!["openusage-cli"@] + views(args@));
    }
}

/// How far a command may be from what was typed, by the length of the longer of the two.
pub open spec fn is_near_enough(distance: nat, typed: Seq<char>, command: Seq<char>) -> bool {
    let longer = if typed.len() >= command.len() {
        typed.len()
    } else {
        command.len()
    };
    &&& longer <= 4 ==> distance <= 1
    &&& 5 <= longer <= 8 ==> distance <= 2
    &&& longer >= 9 ==> distance <= 3
}

/// A command is suggested where it is near enough to what was typed, in whatever case; of
/// several the nearest, and of several nearest the first. `i` is the place of that command.
pub proof fn law_nearest_command_is_suggested(
    input: &str,
    commands: Vec<String>,
    i: int,
    r: Option<String>,
)
    requires
        call_ensures(find_similar_command, (input,), r),
        call_ensures(known_commands, (), commands),
        0 <= i < commands@.len(),
        forall|j: int|
            0 <= j < commands@.len() ==> edit_distance(lowered(input@), commands@[i]@)
                <= edit_distance(lowered(input@), (#[trigger] commands@[j])@),
        forall|j: int|
            0 <= j < i ==> edit_distance(lowered(input@), commands@[i]@) < edit_distance(
                lowered(input@),
                (#[trigger] commands@[j])@,
            ),
    ensures
        is_near_enough(
            edit_distance(lowered(input@), commands@[i]@),
            lowered(input@),
            commands@[i]@,
        ) ==> (r matches Some(command) && command@ == commands@[i]@),
        !is_near_enough(
            edit_distance(lowered(input@), commands@[i]@),
            lowered(input@),
            commands@[i]@,
        ) ==> r is None,
{
    let text = lowered(input@);
    let names = command_names();
    assert(names == views(commands@));
    assert(names.len() == commands@.len());
    let k = closest(text, names);
    lemma_closest_is_first(text, names);
    assert(names[k] == commands@[k]@);
    assert(names[i] == commands@[i]@);
    assert(k == i) by {
        if k < i {
            assert(edit_distance(text, commands@[i]@) < edit_distance(text, commands@[k]@));
        }
        if i < k {
            assert(edit_distance(text, names[k]) < edit_distance(text, names[i]));
        }
    }
}

/// The distance between two texts is the least number of changes, as it is computed.
pub proof fn law_distance_is_computed(a: &str, b: &str, r: usize)
    requires
        call_ensures(levenshtein_distance, (a, b), r),
    ensures
        r == edit_distance(a@, b@),
        r == 0 <==> a@ == b@,
        a@.len() == 0 ==> r == b@.len(),
        b@.len() == 0 ==> r == a@.len(),
{
    law_distance_is_zero_for_equal_texts(a@, b@);
}

/// A command that is not known is complained about, with the command that may have been
/// meant and with all that are known. Nothing is said where there is no command, where it is
/// known, and where help or the version is asked for.
pub proof fn law_unknown_command_is_complained_about(
    args: &Vec<String>,
    helps: bool,
    token: Option<String>,
    typed: &str,
    similar: Option<String>,
    commands: Vec<String>,
    r: Option<String>,
)
    requires
        call_ensures(unknown_command_error, (args,), r),
        call_ensures(contains_global_help_or_version_flag, (args,), helps),
        call_ensures(first_positional_token, (args,), token),
        token matches Some(text) ==> typed@ == text@,
        call_ensures(find_similar_command, (typed,), similar),
        call_ensures(known_commands, (), commands),
    ensures
        helps || token is None ==> r is None,
        token is Some && (exists|i: int|
            0 <= i < commands@.len() && (#[trigger] commands@[i])@ == typed@) ==> r is None,
        !helps && token is Some && (forall|i: int|
            0 <= i < commands@.len() ==> (#[trigger] commands@[i])@ != typed@) ==> (r matches Some(
            message,
        ) && message@ == (match similar {
            Some(command) => "unknown command "@ + typed@ + ". Did you mean "@ + command@
                + "? Known commands: "@ + joined(views(commands@), ", "@),
            None => "unknown command "@ + typed@ + ". Use one of the known commands: "@ + joined(
                views(commands@),
                ", "@,
            ),
        })),
{
    let names = command_names();
    assert(names == views(commands@));
    assert(names.len() == commands@.len());
    if exists|i: int| 0 <= i < commands@.len() && (#[trigger] commands@[i])@ == typed@ {
        let i = choose|i: int| 0 <= i < commands@.len() && (#[trigger] commands@[i])@ == typed@;
        assert(names[i] == typed@);
        assert(names.contains(typed@));
    }
    if forall|i: int| 0 <= i < commands@.len() ==> (#[trigger] commands@[i])@ != typed@ {
        if names.contains(typed@) {
            let i = choose|i: int| 0 <= i < names.len() && names[i] == typed@;
            assert(commands@[i]@ == typed@);
        }
    }
}

} // verus!
