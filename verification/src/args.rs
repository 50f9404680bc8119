//! The command line: its options, what they do to the configuration, and how they are refused.

use crate::config::{default_settings, lemma_defaults_are_named, Configuration, Settings};
use crate::list::{lemma_split_list_names, split_list};
use crate::text::{eq_ignore_ascii_case, same_text, same_text_ignoring_ascii_case};
use vstd::prelude::*;
use vstd::string::StringExecFns;

verus! {

/// An option of the command line.
#[derive(Clone, Copy, Debug, PartialEq, Eq, Structural)]
pub enum Flag {
    /// `help` or `-h`: show the usage text and do nothing else.
    Help,
    /// `path` or `-p`: the directory at which the walk starts.
    Path,
    /// `targets` or `-t`: a list of names that takes the place of the targets.
    Targets,
    /// `overwrite` or `-o`: the same as `targets`.
    Overwrite,
    /// `extends` or `-e`: a list of names that is added to the targets.
    Extends,
    /// `ignore` or `-i`: a list of names that takes the place of the ignore list.
    Ignore,
    /// `gitignore` or `-gi`: `false` turns the reading of the ignore file off.
    Gitignore,
}

/// What a command line asks for.
#[derive(Debug, PartialEq, Eq)]
pub enum Command {
    /// To show the usage text.
    Help,
    /// To walk with this configuration.
    Run(Configuration),
}

/// Why a command line is refused.
#[derive(Debug, PartialEq, Eq)]
pub enum ParseError {
    /// A usage error: this token stands where an option is expected and is none.
    UnknownOption(String),
    /// A usage error: this option replaces the targets after another has added to them, or adds
    /// to them after another has replaced them.
    Conflict(Flag),
    /// A missing argument: this option is the last token and needs a value after it.
    MissingValue(Flag),
}

/// What a command line asks for, as plain values.
pub enum CommandView {
    Help,
    Run(Settings),
}

/// Why a command line is refused, as plain values.
pub enum ParseErrorView {
    UnknownOption(Seq<char>),
    Conflict(Flag),
    MissingValue(Flag),
}

impl View for Command {
    type V = CommandView;

    open spec fn view(&self) -> CommandView {
        match self {
            Command::Help => CommandView::Help,
            Command::Run(config) => CommandView::Run(config@),
        }
    }
}

impl View for ParseError {
    type V = ParseErrorView;

    open spec fn view(&self) -> ParseErrorView {
        match self {
            ParseError::UnknownOption(token) => ParseErrorView::UnknownOption(token@),
            ParseError::Conflict(flag) => ParseErrorView::Conflict(*flag),
            ParseError::MissingValue(flag) => ParseErrorView::MissingValue(*flag),
        }
    }
}

/// The result of reading a command line, as plain values.
pub open spec fn result_view(result: Result<Command, ParseError>) -> Result<
    CommandView,
    ParseErrorView,
> {
    match result {
        Ok(command) => Ok(command@),
        Err(error) => Err(error@),
    }
}

/// The option that `token` spells, if it spells one. The spelling is exact: an option in
/// capitals is none.
pub open spec fn flag_of(token: Seq<char>) -> Option<Flag> {
    if token == "help"@ || token == "-h"@ {
        Some(Flag::Help)
    } else if token == "path"@ || token == "-p"@ {
        Some(Flag::Path)
    } else if token == "targets"@ || token == "-t"@ {
        Some(Flag::Targets)
    } else if token == "overwrite"@ || token == "-o"@ {
        Some(Flag::Overwrite)
    } else if token == "extends"@ || token == "-e"@ {
        Some(Flag::Extends)
    } else if token == "ignore"@ || token == "-i"@ {
        Some(Flag::Ignore)
    } else if token == "gitignore"@ || token == "-gi"@ {
        Some(Flag::Gitignore)
    } else {
        None
    }
}

/// Whether `value` is the word `false`, in small letters or capitals.
pub open spec fn says_false(value: Seq<char>) -> bool {
    eq_ignore_ascii_case(value, "false"@)
}

/// How far the reading of a command line has come: the settings as the options read so far have
/// left them, and whether one of them has replaced the targets or added to them.
pub struct Progress {
    pub settings: Settings,
    pub replaced: bool,
    pub extended: bool,
}

/// The state in which the reading of a command line begins.
pub open spec fn start() -> Progress {
    Progress { settings: default_settings(), replaced: false, extended: false }
}

/// What the option `flag` does when it is read in the state `progress`, with `value` the token
/// after it, if there is one.
///
/// An option that replaces the targets is refused once one has added to them, and the other way
/// round; this is looked at before the value is. `gitignore` never turns the reading of the
/// ignore file back on, and without a value it does nothing.
pub open spec fn apply(progress: Progress, flag: Flag, value: Option<Seq<char>>) -> Result<
    Progress,
    ParseErrorView,
> {
    let settings = progress.settings;
    match flag {
        Flag::Help => Ok(progress),
        Flag::Path => match value {
            Some(root) => Ok(Progress { settings: Settings { root, ..settings }, ..progress }),
            None => Err(ParseErrorView::MissingValue(flag)),
        },
        Flag::Targets | Flag::Overwrite => if progress.extended {
            Err(ParseErrorView::Conflict(flag))
        } else {
            match value {
                Some(raw) => Ok(
                    Progress {
                        settings: Settings { targets: split_list(raw), ..settings },
                        replaced: true,
                        ..progress
                    },
                ),
                None => Err(ParseErrorView::MissingValue(flag)),
            }
        },
        Flag::Extends => if progress.replaced {
            Err(ParseErrorView::Conflict(flag))
        } else {
            match value {
                Some(raw) => Ok(
                    Progress {
                        settings: Settings {
                            targets: settings.targets + split_list(raw),
                            ..settings
                        },
                        extended: true,
                        ..progress
                    },
                ),
                None => Err(ParseErrorView::MissingValue(flag)),
            }
        },
        Flag::Ignore => match value {
            Some(raw) => Ok(
                Progress { settings: Settings { ignore: split_list(raw), ..settings }, ..progress },
            ),
            None => Err(ParseErrorView::MissingValue(flag)),
        },
        Flag::Gitignore => match value {
            Some(word) => Ok(
                Progress {
                    settings: Settings {
                        use_ignore_file: settings.use_ignore_file && !says_false(word),
                        ..settings
                    },
                    ..progress
                },
            ),
            None => Ok(progress),
        },
    }
}

/// The token after the one at `at`, if there is one.
pub open spec fn value_at(args: Seq<Seq<char>>, at: int) -> Option<Seq<char>> {
    if 0 <= at && at + 1 < args.len() {
        Some(args[at + 1])
    } else {
        None
    }
}

/// The place of the token that is read after the option at `at`: the one after its value, or,
/// where the option is the last token, the end.
pub open spec fn after(args: Seq<Seq<char>>, at: int) -> int {
    if at + 1 < args.len() {
        at + 2
    } else {
        at + 1
    }
}

/// What the tokens of `args` from `at` on ask for, read in the state `progress`.
///
/// The tokens are read in their order, an option and then its value. The first that cannot be
/// read ends the reading with its error, and so does `help`, whatever stands after it.
pub open spec fn parse_from(args: Seq<Seq<char>>, at: int, progress: Progress) -> Result<
    CommandView,
    ParseErrorView,
>
    decreases args.len() - at,
{
    if at < 0 || at >= args.len() {
        Ok(CommandView::Run(progress.settings))
    } else {
        match flag_of(args[at]) {
            None => Err(ParseErrorView::UnknownOption(args[at])),
            Some(Flag::Help) => Ok(CommandView::Help),
            Some(flag) => match apply(progress, flag, value_at(args, at)) {
                Err(error) => Err(error),
                Ok(next) => parse_from(args, after(args, at), next),
            },
        }
    }
}

/// What the command line `args` asks for. Its first token is the name of the program and is not
/// read.
pub open spec fn parse(args: Seq<Seq<char>>) -> Result<CommandView, ParseErrorView> {
    parse_from(args, 1, start())
}

/// Tells which option `token` spells, if any.
pub fn recognize(token: &str) -> (flag: Option<Flag>)
    ensures
        flag == flag_of(token@),
{
    if same_text(token, "help") || same_text(token, "-h") {
        Some(Flag::Help)
    } else if same_text(token, "path") || same_text(token, "-p") {
        Some(Flag::Path)
    } else if same_text(token, "targets") || same_text(token, "-t") {
        Some(Flag::Targets)
    } else if same_text(token, "overwrite") || same_text(token, "-o") {
        Some(Flag::Overwrite)
    } else if same_text(token, "extends") || same_text(token, "-e") {
        Some(Flag::Extends)
    } else if same_text(token, "ignore") || same_text(token, "-i") {
        Some(Flag::Ignore)
    } else if same_text(token, "gitignore") || same_text(token, "-gi") {
        Some(Flag::Gitignore)
    } else {
        None
    }
}

/// Reads the command line `args`, whose first token is the name of the program.
///
/// The options are read in their order, each with the token after it as its value. Reading ends
/// at `help`, and at the first token that cannot be read: one that is no option, an option that
/// cannot stand with one read before it, or one that lacks its value.
pub fn parse_args(args: &Vec<String>) -> (result: Result<Command, ParseError>)
    ensures
        result_view(result) == parse(args.deep_view()),
        result matches Ok(Command::Run(config)) ==> config@.well_formed(),
{
    let ghost tokens = args.deep_view();
    let mut config = Configuration::default();
    let mut replaced = false;
    let mut extended = false;
    let mut at: usize = 1;
    while at < args.len()
        invariant
            tokens == args.deep_view(),
            1 <= at,
            config@.well_formed(),
            parse_from(tokens, at as int, Progress { settings: config@, replaced, extended })
                == parse(tokens),
        decreases args.len() - at,
    {
        let token = args[at].as_str();
        let flag = match recognize(token) {
            None => {
                return Err(ParseError::UnknownOption(token.to_owned()));
            },
            Some(Flag::Help) => {
                return Ok(Command::Help);
            },
            Some(flag) => flag,
        };
        let value: Option<&str> = if at + 1 < args.len() {
            Some(args[at + 1].as_str())
        } else {
            None
        };
        match flag {
            Flag::Help => {},
            Flag::Path => match value {
                Some(root) => {
                    config = config.with_root(root);
                },
                None => {
                    return Err(ParseError::MissingValue(flag));
                },
            },
            Flag::Targets | Flag::Overwrite => {
                if extended {
                    return Err(ParseError::Conflict(flag));
                }
                match value {
                    Some(raw) => {
                        config = config.with_targets(raw);
                        replaced = true;
                    },
                    None => {
                        return Err(ParseError::MissingValue(flag));
                    },
                }
            },
            Flag::Extends => {
                if replaced {
                    return Err(ParseError::Conflict(flag));
                }
                match value {
                    Some(raw) => {
                        config = config.with_more_targets(raw);
                        extended = true;
                    },
                    None => {
                        return Err(ParseError::MissingValue(flag));
                    },
                }
            },
            Flag::Ignore => match value {
                Some(raw) => {
                    config = config.with_ignore(raw);
                },
                None => {
                    return Err(ParseError::MissingValue(flag));
                },
            },
            Flag::Gitignore => match value {
                Some(word) => {
                    if same_text_ignoring_ascii_case(word, "false") {
                        config = config.with_use_ignore_file(false);
                    }
                },
                None => {},
            },
        }
        at = if value.is_some() {
            at + 2
        } else {
            at + 1
        };
    }
    Ok(Command::Run(config))
}

/// The word by which the messages call an option.
pub open spec fn flag_name(flag: Flag) -> Seq<char> {
    match flag {
        Flag::Help => "help"@,
        Flag::Path => "path"@,
        Flag::Targets => "targets"@,
        Flag::Overwrite => "overwrite"@,
        Flag::Extends => "extends"@,
        Flag::Ignore => "ignore"@,
        Flag::Gitignore => "gitignore"@,
    }
}

/// The option that the messages set against `flag` where the two cannot stand together:
/// `targets` against `extends`, and `extends` against every other.
pub open spec fn rival(flag: Flag) -> Flag {
    if flag == Flag::Extends {
        Flag::Targets
    } else {
        Flag::Extends
    }
}

/// What the messages call the value of an option.
pub open spec fn value_name(flag: Flag) -> Seq<char> {
    match flag {
        Flag::Path => "a path"@,
        Flag::Ignore => "a list"@,
        _ => "a targets"@,
    }
}

/// The line that tells the user why the command line was refused.
pub open spec fn message_text(error: ParseErrorView) -> Seq<char> {
    match error {
        ParseErrorView::UnknownOption(token) => "Error: Unknown option "@ + token
            + ". Use help or -h for usage information."@,
        ParseErrorView::Conflict(flag) => "Error: '"@ + flag_name(flag) + "' cannot be used with '"@
            + flag_name(rival(flag)) + "'."@,
        ParseErrorView::MissingValue(flag) => "Error: You must specify "@ + value_name(flag)
            + " after '"@ + flag_name(flag) + "'."@,
    }
}

/// Whether `error` is a usage error: a token that is no option, or two options that cannot
/// stand together. The other errors are missing arguments.
pub open spec fn is_usage_error(error: ParseErrorView) -> bool {
    error is UnknownOption || error is Conflict
}

impl Flag {
    /// The word by which the messages call this option.
    pub fn name(self) -> (name: &'static str)
        ensures
            name@ == flag_name(self),
    {
        match self {
            Flag::Help => "help",
            Flag::Path => "path",
            Flag::Targets => "targets",
            Flag::Overwrite => "overwrite",
            Flag::Extends => "extends",
            Flag::Ignore => "ignore",
            Flag::Gitignore => "gitignore",
        }
    }
}

impl ParseError {
    /// Tells whether this is a usage error; if not, it is a missing argument.
    pub fn is_usage_error(&self) -> (usage: bool)
        ensures
            usage == is_usage_error(self@),
    {
        match self {
            ParseError::UnknownOption(_) => true,
            ParseError::Conflict(_) => true,
            ParseError::MissingValue(_) => false,
        }
    }

    /// The line that tells the user why the command line was refused.
    pub fn message(&self) -> (text: String)
        ensures
            text@ == message_text(self@),
    {
        match self {
            ParseError::UnknownOption(token) => {
                let mut text = String::from_str("Error: Unknown option ");
                text.append(token.as_str());
                text.append(". Use help or -h for usage information.");
                text
            },
            ParseError::Conflict(flag) => {
                let other = match flag {
                    Flag::Extends => Flag::Targets,
                    _ => Flag::Extends,
                };
                let mut text = String::from_str("Error: '");
                text.append(flag.name());
                text.append("' cannot be used with '");
                text.append(other.name());
                text.append("'.");
                text
            },
            ParseError::MissingValue(flag) => {
                let value = match flag {
                    Flag::Path => "a path",
                    Flag::Ignore => "a list",
                    _ => "a targets",
                };
                let mut text = String::from_str("Error: You must specify ");
                text.append(value);
                text.append(" after '");
                text.append(flag.name());
                text.append("'.");
                text
            },
        }
    }
}

/// The options that `args` supplies from `at` on: the tokens that are read as options, in their
/// order. `help` is the last of them where it is met, and a token that is no option ends them,
/// since nothing after either is read.
pub open spec fn supplied(args: Seq<Seq<char>>, at: int) -> Seq<Flag>
    decreases args.len() - at,
{
    if at < 0 || at >= args.len() {
        Seq::empty()
    } else {
        match flag_of(args[at]) {
            None => Seq::empty(),
            Some(Flag::Help) => seq![Flag::Help],
            Some(flag) => seq![flag] + supplied(args, after(args, at)),
        }
    }
}

/// The names that the `extends` options of `args` give from `at` on, list after list.
pub open spec fn appended(args: Seq<Seq<char>>, at: int) -> Seq<Seq<char>>
    decreases args.len() - at,
{
    if at < 0 || at >= args.len() {
        Seq::empty()
    } else {
        match (flag_of(args[at]), value_at(args, at)) {
            (None, _) | (Some(Flag::Help), _) => Seq::empty(),
            (Some(Flag::Extends), Some(raw)) => split_list(raw) + appended(args, after(args, at)),
            _ => appended(args, after(args, at)),
        }
    }
}

/// The names that the last `targets` or `overwrite` option of `args` from `at` on gives, if
/// there is such an option.
pub open spec fn replacement(args: Seq<Seq<char>>, at: int) -> Option<Seq<Seq<char>>>
    decreases args.len() - at,
{
    if at < 0 || at >= args.len() {
        None
    } else {
        match (flag_of(args[at]), value_at(args, at)) {
            (None, _) | (Some(Flag::Help), _) => None,
            (Some(Flag::Targets), Some(raw)) | (Some(Flag::Overwrite), Some(raw)) => match replacement(
                args,
                after(args, at),
            ) {
                Some(later) => Some(later),
                None => Some(split_list(raw)),
            },
            _ => replacement(args, after(args, at)),
        }
    }
}

/// Replacing the targets and adding to them exclude each other: a command line that supplies
/// `targets` or `overwrite` and also `extends` is refused with a usage error, the conflict.
pub proof fn lemma_replace_and_extend_conflict(args: Seq<Seq<char>>)
    requires
        supplied(args, 1).contains(Flag::Targets) || supplied(args, 1).contains(Flag::Overwrite),
        supplied(args, 1).contains(Flag::Extends),
    ensures
        parse(args) is Err,
        parse(args)->Err_0 is Conflict,
        is_usage_error(parse(args)->Err_0),
{
    lemma_conflict_from(args, 1, start());
}

/// The same from any place and state: where one kind of option has been read or is still to
/// come, and the other kind too, the reading ends in the conflict.
proof fn lemma_conflict_from(args: Seq<Seq<char>>, at: int, progress: Progress)
    requires
        0 <= at,
        !(progress.replaced && progress.extended),
        progress.replaced || supplied(args, at).contains(Flag::Targets) || supplied(
            args,
            at,
        ).contains(Flag::Overwrite),
        progress.extended || supplied(args, at).contains(Flag::Extends),
    ensures
        parse_from(args, at, progress) is Err,
        parse_from(args, at, progress)->Err_0 is Conflict,
    decreases args.len() - at,
{
    let here = supplied(args, at);
    if at < args.len() {
        match flag_of(args[at]) {
            None => {},
            Some(Flag::Help) => {},
            Some(flag) => {
                let rest = supplied(args, after(args, at));
                assert forall|wanted: Flag| here.contains(wanted) && wanted != flag implies rest.contains(
                    wanted,
                ) by {
                    let i = choose|i: int| 0 <= i < here.len() && here[i] == wanted;
                    assert(rest[i - 1] == wanted);
                }
                match apply(progress, flag, value_at(args, at)) {
                    Ok(next) => {
                        lemma_conflict_from(args, after(args, at), next);
                    },
                    Err(_) => {},
                }
            },
        }
    }
}

/// Once an option has replaced the targets, a command line that is accepted adds nothing to
/// them.
proof fn lemma_nothing_appended_after_replacing(args: Seq<Seq<char>>, at: int, progress: Progress)
    requires
        0 <= at,
        progress.replaced,
        parse_from(args, at, progress) is Ok,
        parse_from(args, at, progress)->Ok_0 is Run,
    ensures
        appended(args, at) == Seq::<Seq<char>>::empty(),
    decreases args.len() - at,
{
    if at < args.len() {
        match flag_of(args[at]) {
            None => {},
            Some(Flag::Help) => {},
            Some(flag) => {
                match apply(progress, flag, value_at(args, at)) {
                    Ok(next) => {
                        lemma_nothing_appended_after_replacing(args, after(args, at), next);
                    },
                    Err(_) => {},
                }
            },
        }
    }
}

/// What the targets are after a command line that is accepted.
///
/// Where it holds no `targets` and no `overwrite`, they are the targets that were there, still
/// in their places, followed by the names of its `extends` options in the order given. Where it
/// holds `targets` or `overwrite`, they are the names that the last of these gives, and none of
/// those that were there.
pub proof fn lemma_targets_after(args: Seq<Seq<char>>, at: int, progress: Progress)
    requires
        0 <= at,
        parse_from(args, at, progress) is Ok,
        parse_from(args, at, progress)->Ok_0 is Run,
    ensures
        parse_from(args, at, progress)->Ok_0->Run_0.targets == (match replacement(args, at) {
            Some(list) => list,
            None => progress.settings.targets + appended(args, at),
        }),
    decreases args.len() - at,
{
    if at < args.len() {
        match flag_of(args[at]) {
            None => {},
            Some(Flag::Help) => {},
            Some(flag) => {
                match apply(progress, flag, value_at(args, at)) {
                    Ok(next) => {
                        let then = after(args, at);
                        lemma_targets_after(args, then, next);
                        if next.replaced {
                            lemma_nothing_appended_after_replacing(args, then, next);
                        }
                    },
                    Err(_) => {},
                }
            },
        }
    }
}

/// What the targets are after the command line `args`, where it is accepted: the names that its
/// last `targets` or `overwrite` option gives, if it holds one; if it holds none, the default
/// targets, followed by the names of its `extends` options in the order given.
pub proof fn lemma_targets_of_command_line(args: Seq<Seq<char>>)
    requires
        parse(args) is Ok,
        parse(args)->Ok_0 is Run,
    ensures
        parse(args)->Ok_0->Run_0.targets == (match replacement(args, 1) {
            Some(list) => list,
            None => default_settings().targets + appended(args, 1),
        }),
{
    lemma_targets_after(args, 1, start());
}

/// The settings that an accepted command line gives are well formed: no option brings in a
/// name that is empty or made of whitespace only.
pub proof fn lemma_accepted_settings_are_well_formed(args: Seq<Seq<char>>)
    requires
        parse(args) is Ok,
        parse(args)->Ok_0 is Run,
    ensures
        parse(args)->Ok_0->Run_0.well_formed(),
{
    lemma_defaults_are_named();
    lemma_well_formed_from(args, 1, start());
}

/// The same from any place and state.
proof fn lemma_well_formed_from(args: Seq<Seq<char>>, at: int, progress: Progress)
    requires
        0 <= at,
        progress.settings.well_formed(),
        parse_from(args, at, progress) is Ok,
        parse_from(args, at, progress)->Ok_0 is Run,
    ensures
        parse_from(args, at, progress)->Ok_0->Run_0.well_formed(),
    decreases args.len() - at,
{
    if at < args.len() {
        match (flag_of(args[at]), value_at(args, at)) {
            (Some(flag), Some(raw)) => {
                lemma_split_list_names(raw);
                match apply(progress, flag, Some(raw)) {
                    Ok(next) => {
                        lemma_well_formed_from(args, after(args, at), next);
                    },
                    Err(_) => {},
                }
            },
            (Some(flag), None) => {
                match apply(progress, flag, None) {
                    Ok(next) => {
                        lemma_well_formed_from(args, after(args, at), next);
                    },
                    Err(_) => {},
                }
            },
            (None, _) => {},
        }
    }
}

} // verus!
