//! The configuration of a run: where to start, which names to delete, which to pass over.

use crate::list::{contains_name, lemma_split_list_names, parse_targets, split_list, trimming};
use crate::text::{is_blank, is_whitespace, lemma_trim_is_tight, trimmed};
use vstd::prelude::*;

verus! {

/// What a configuration holds, as plain values.
pub struct Settings {
    /// The directory at which the walk starts.
    pub root: Seq<char>,
    /// The names to delete wherever they are met, in the order in which they were given.
    pub targets: Seq<Seq<char>>,
    /// The names to pass over, with everything beneath them.
    pub ignore: Seq<Seq<char>>,
    /// Whether the names of the ignore file are to be added to `ignore`.
    pub use_ignore_file: bool,
}

/// Whether no name in `list` is blank: each has a character that is no whitespace.
pub open spec fn all_named(list: Seq<Seq<char>>) -> bool {
    forall|i: int| 0 <= i < list.len() ==> !is_blank(#[trigger] list[i])
}

impl Settings {
    /// Whether the lists are fit for a run: no name among the targets nor on the ignore list is
    /// empty or made of whitespace only. A name may stand more than once.
    pub open spec fn well_formed(self) -> bool {
        all_named(self.targets) && all_named(self.ignore)
    }
}

/// The names that are deleted where nothing else was asked for.
pub open spec fn default_targets() -> Seq<Seq<char>> {
    seq!["node_modules"@, "pnpm-lock.yaml"@, "yarn.lock"@, "package-lock.json"@]
}

/// The names that are passed over where nothing else was asked for.
pub open spec fn default_ignore() -> Seq<Seq<char>> {
    seq![".changeset"@, ".husky"@, ".git"@, ".github"@, "src"@]
}

/// The settings of a run without any option: the walk starts in the current directory and the
/// ignore file is read.
pub open spec fn default_settings() -> Settings {
    Settings {
        root: "."@,
        targets: default_targets(),
        ignore: default_ignore(),
        use_ignore_file: true,
    }
}

/// The names that stand in the ignore file whose lines are `lines`: each line trimmed, without
/// the empty ones, the comments (which begin with `#`) and the names that are among `targets`,
/// in the order of the lines.
pub open spec fn ignore_file_names(lines: Seq<Seq<char>>, targets: Seq<Seq<char>>) -> Seq<
    Seq<char>,
> {
    lines.map_values(trimming()).filter(is_entry_line(targets))
}

/// Whether a trimmed line of the ignore file names something to pass over, as a function on
/// lines: it is not empty, is no comment, and is none of `targets`.
pub open spec fn is_entry_line(targets: Seq<Seq<char>>) -> spec_fn(Seq<char>) -> bool {
    |line: Seq<char>| line.len() > 0 && line.first() != '#' && !targets.contains(line)
}

/// The configuration of one run. Its settings are always well formed.
#[derive(Debug, PartialEq, Eq)]
pub struct Configuration {
    root: String,
    targets: Vec<String>,
    ignore: Vec<String>,
    use_ignore_file: bool,
}

impl View for Configuration {
    type V = Settings;

    closed spec fn view(&self) -> Settings {
        Settings {
            root: self.root@,
            targets: self.targets.deep_view(),
            ignore: self.ignore.deep_view(),
            use_ignore_file: self.use_ignore_file,
        }
    }
}

impl Configuration {
    #[verifier::type_invariant]
    spec fn names_are_not_blank(&self) -> bool {
        all_named(self.targets.deep_view()) && all_named(self.ignore.deep_view())
    }

    /// The directory at which the walk starts.
    pub fn root(&self) -> (root: &str)
        ensures
            root@ == self@.root,
    {
        self.root.as_str()
    }

    /// The names to delete.
    pub fn targets(&self) -> (targets: &Vec<String>)
        ensures
            targets.deep_view() == self@.targets,
            self@.well_formed(),
    {
        proof {
            use_type_invariant(self);
        }
        &self.targets
    }

    /// The names to pass over.
    pub fn ignore(&self) -> (ignore: &Vec<String>)
        ensures
            ignore.deep_view() == self@.ignore,
            self@.well_formed(),
    {
        proof {
            use_type_invariant(self);
        }
        &self.ignore
    }

    /// Whether the ignore file is to be read.
    pub fn use_ignore_file(&self) -> (enabled: bool)
        ensures
            enabled == self@.use_ignore_file,
    {
        self.use_ignore_file
    }

    /// The same configuration with `root` as the directory at which the walk starts.
    pub fn with_root(self, root: &str) -> (config: Configuration)
        ensures
            config@ == (Settings { root: root@, ..self@ }),
            config@.well_formed(),
    {
        proof {
            use_type_invariant(&self);
        }
        Configuration { root: root.to_owned(), ..self }
    }

    /// The same configuration with the names of the comma-separated list `raw` in the place of
    /// its targets.
    pub fn with_targets(self, raw: &str) -> (config: Configuration)
        ensures
            config@ == (Settings { targets: split_list(raw@), ..self@ }),
            config@.well_formed(),
    {
        proof {
            use_type_invariant(&self);
            lemma_split_list_names(raw@);
        }
        Configuration { targets: parse_targets(raw), ..self }
    }

    /// The same configuration with the names of the comma-separated list `raw` added to its
    /// targets: after those that are there, in the order of the list.
    pub fn with_more_targets(self, raw: &str) -> (config: Configuration)
        ensures
            config@ == (Settings { targets: self@.targets + split_list(raw@), ..self@ }),
            config@.well_formed(),
    {
        proof {
            use_type_invariant(&self);
            lemma_split_list_names(raw@);
        }
        let Configuration { root, mut targets, ignore, use_ignore_file } = self;
        let mut more = parse_targets(raw);
        let ghost before = targets.deep_view();
        let ghost added = more.deep_view();
        targets.append(&mut more);
        assert(targets.deep_view() == before + added);
        Configuration { root, targets, ignore, use_ignore_file }
    }

    /// The same configuration with the names of the comma-separated list `raw` in the place of
    /// its ignore list.
    pub fn with_ignore(self, raw: &str) -> (config: Configuration)
        ensures
            config@ == (Settings { ignore: split_list(raw@), ..self@ }),
            config@.well_formed(),
    {
        proof {
            use_type_invariant(&self);
            lemma_split_list_names(raw@);
        }
        Configuration { ignore: parse_targets(raw), ..self }
    }

    /// The same configuration, reading the ignore file or not as `enabled` says.
    pub fn with_use_ignore_file(self, enabled: bool) -> (config: Configuration)
        ensures
            config@ == (Settings { use_ignore_file: enabled, ..self@ }),
            config@.well_formed(),
    {
        proof {
            use_type_invariant(&self);
        }
        Configuration { use_ignore_file: enabled, ..self }
    }

    /// The same configuration with the lines of an ignore file taken into its ignore list: each
    /// line is trimmed; an empty line, a comment and a name that is a target are left out; the
    /// others are added after the names that are there, in the order of the lines. Nothing is
    /// left out as a duplicate.
    pub fn with_ignore_file_lines(self, lines: &Vec<String>) -> (config: Configuration)
        ensures
            config@ == (Settings {
                ignore: self@.ignore + ignore_file_names(lines.deep_view(), self@.targets),
                ..self@
            }),
            config@.well_formed(),
    {
        proof {
            use_type_invariant(&self);
        }
        let Configuration { root, targets, mut ignore, use_ignore_file } = self;
        let ghost before = ignore.deep_view();
        let ghost all = lines.deep_view();
        let mut i: usize = 0;
        assert(ignore_file_names(all.take(0), targets.deep_view()) == Seq::<Seq<char>>::empty())
            by {
            reveal(Seq::filter);
        }
        while i < lines.len()
            invariant
                i <= lines.len(),
                all == lines.deep_view(),
                all_named(ignore.deep_view()),
                ignore.deep_view() == before + ignore_file_names(
                    all.take(i as int),
                    targets.deep_view(),
                ),
            decreases lines.len() - i,
        {
            let line = trimmed(lines[i].as_str());
            proof {
                let seen = all.take(i as int);
                assert(all.take(i + 1) == seen.push(all[i as int]));
                assert(seen.push(all[i as int]).map_values(trimming()) == seen.map_values(
                    trimming(),
                ).push(line@));
                seen.map_values(trimming()).lemma_filter_push(
                    line@,
                    is_entry_line(targets.deep_view()),
                );
                lemma_trim_is_tight(all[i as int]);
            }
            let ghost so_far = ignore.deep_view();
            if line.as_str().unicode_len() > 0 && line.as_str().get_char(0) != '#'
                && !contains_name(&targets, line.as_str()) {
                ignore.push(line);
                assert(ignore.deep_view() == so_far.push(line@));
            }
            i += 1;
        }
        assert(all.take(lines.len() as int) == all);
        Configuration { root, targets, ignore, use_ignore_file }
    }
}

impl Default for Configuration {
    /// The configuration of a run without any option.
    fn default() -> (config: Configuration)
        ensures
            config@ == default_settings(),
            config@.well_formed(),
    {
        let mut targets: Vec<String> = Vec::new();
        targets.push("node_modules".to_owned());
        targets.push("pnpm-lock.yaml".to_owned());
        targets.push("yarn.lock".to_owned());
        targets.push("package-lock.json".to_owned());
        let mut ignore: Vec<String> = Vec::new();
        ignore.push(".changeset".to_owned());
        ignore.push(".husky".to_owned());
        ignore.push(".git".to_owned());
        ignore.push(".github".to_owned());
        ignore.push("src".to_owned());
        proof {
            lemma_defaults_are_named();
            assert(targets.deep_view() == default_targets());
            assert(ignore.deep_view() == default_ignore());
        }
        Configuration { root: ".".to_owned(), targets, ignore, use_ignore_file: true }
    }
}

/// None of the default names is blank.
pub proof fn lemma_defaults_are_named()
    ensures
        all_named(default_targets()),
        all_named(default_ignore()),
{
    reveal_strlit("node_modules");
    reveal_strlit("pnpm-lock.yaml");
    reveal_strlit("yarn.lock");
    reveal_strlit("package-lock.json");
    reveal_strlit(".changeset");
    reveal_strlit(".husky");
    reveal_strlit(".git");
    reveal_strlit(".github");
    reveal_strlit("src");
    assert forall|i: int| 0 <= i < default_targets().len() implies !is_blank(
        #[trigger] default_targets()[i],
    ) by {
        let name = default_targets()[i];
        assert(!is_whitespace(name[0]));
    }
    assert forall|i: int| 0 <= i < default_ignore().len() implies !is_blank(
        #[trigger] default_ignore()[i],
    ) by {
        let name = default_ignore()[i];
        assert(!is_whitespace(name[0]));
    }
}

} // verus!
