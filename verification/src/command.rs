//! The command registry: named subcommands with descriptions and handlers.

use vstd::prelude::*;
use vstd::string::StrSliceExecFns;
use vstd::string::StringExecFns;

use crate::distance::edit_dist;
use crate::distance::levenshtein_distance;
use crate::lex::lemma_lex_lt_irreflexive;
use crate::lex::lemma_lex_lt_transitive;
use crate::lex::lemma_lex_lt_trichotomy;
use crate::lex::lex_lt;
use crate::lex::str_lt;

verus! {

/// Exit code returned by a subcommand handler; `0` means success by
/// convention.
pub type ExitCode = i32;

/// What a subcommand handler returns: an exit code on success, or a
/// human-readable error message on failure.
pub type CommandResult = Result<ExitCode, String>;

/// A registered subcommand: a name, a one-line description, and an
/// optional handler.  Only the built-in `help` entry has no handler.
pub struct Command<F> {
    pub name: String,
    pub description: String,
    pub run: Option<F>,
}

/// The command registry: the invocation arguments and the registered
/// commands, kept in strictly ascending lexicographic order of name.
///
/// `args[0]` is the program name, `args[1]` (when present) the requested
/// subcommand, and the rest are forwarded to that subcommand's handler.
pub struct Commands<F> {
    pub args: Vec<String>,
    pub commands: Vec<Command<F>>,
}

impl<F: Fn(Vec<String>) -> CommandResult> Commands<F> {
    /// Some registered command carries this name.
    pub open spec fn has_name(self, n: Seq<char>) -> bool {
        exists|k: int| 0 <= k < self.commands@.len() && (#[trigger] self.commands@[k]).name@ == n
    }

    /// The position of the command with this name.
    pub open spec fn index_of(self, n: Seq<char>) -> int {
        choose|k: int| 0 <= k < self.commands@.len() && (#[trigger] self.commands@[k]).name@ == n
    }

    /// The registered command with this name.
    pub open spec fn cmd_of(self, n: Seq<char>) -> Command<F> {
        self.commands@[self.index_of(n)]
    }

    /// Command names stand in strictly ascending lexicographic order, so
    /// each name occurs at most once.
    pub open spec fn sorted(self) -> bool {
        forall|p: int, q: int|
            0 <= p < q < self.commands@.len() ==> lex_lt(
                (#[trigger] self.commands@[p]).name@,
                (#[trigger] self.commands@[q]).name@,
            )
    }

    /// The handler stored at position `k`, if any, accepts every argument
    /// list.
    pub open spec fn handler_callable(self, k: int) -> bool {
        self.commands@[k].run matches Some(f) ==> forall|args: Vec<String>|
            call_requires(f, (args,))
    }

    /// The registry invariant: names sorted and unique, the built-in
    /// `help` entry present, every entry but `help` backed by a handler,
    /// every stored handler callable, and every name short enough to
    /// measure edit distances against.
    pub open spec fn wf(self) -> bool {
        &&& self.sorted()
        &&& self.has_name("help"@)
        &&& forall|k: int| 0 <= k < self.commands@.len() ==> #[trigger] self.handler_callable(k)
        &&& forall|k: int|
            0 <= k < self.commands@.len() && (#[trigger] self.commands@[k]).run is None
                ==> self.commands@[k].name@ == "help"@
        &&& forall|k: int|
            0 <= k < self.commands@.len() ==> (#[trigger] self.commands@[k]).name@.len()
                < usize::MAX
    }

    /// In a sorted registry, a position holding a name is the position
    /// `index_of` denotes.
    proof fn lemma_index_of_is(self, n: Seq<char>, k: int)
        requires
            self.sorted(),
            0 <= k < self.commands@.len(),
            self.commands@[k].name@ == n,
        ensures
            self.has_name(n),
            self.index_of(n) == k,
    {
        assert(self.has_name(n));
        let j = self.index_of(n);
        if j != k {
            lemma_lex_lt_irreflexive(n);
        }
    }

    /// Creates a registry over the given invocation arguments, holding
    /// only the built-in `help` entry.
    pub fn new(args: Vec<String>) -> (r: Commands<F>)
        ensures
            r.wf(),
            r.args == args,
            r.commands@.len() == 1,
            r.commands@[0].name@ == "help"@,
            r.commands@[0].description@ == "Print help"@,
            r.commands@[0].run is None,
    {
        let mut commands: Vec<Command<F>> = Vec::new();
        commands.push(
            Command {
                name: String::from_str("help"),
                description: String::from_str("Print help"),
                run: None,
            },
        );
        let r = Commands { args, commands };
        proof {
            reveal_strlit("help");
            assert(r.commands@[0].name@ == "help"@);
        }
        r
    }

    /// Registers a command under `name`, silently replacing any earlier
    /// entry with the same name.  Looking the name up afterwards yields
    /// exactly this description and handler; every other entry is kept,
    /// and the registry grows only when the name was new.
    pub fn create(&mut self, name: &str, description: &str, run: F)
        requires
            old(self).wf(),
            name@.len() < usize::MAX,
            forall|args: Vec<String>| call_requires(run, (args,)),
        ensures
            final(self).wf(),
            final(self).args == old(self).args,
            final(self).has_name(name@),
            final(self).cmd_of(name@).name@ == name@,
            final(self).cmd_of(name@).description@ == description@,
            final(self).cmd_of(name@).run == Some(run),
            forall|n: Seq<char>|
                n != name@ ==> final(self).has_name(n) == old(self).has_name(n),
            forall|n: Seq<char>|
                n != name@ && old(self).has_name(n) ==> final(self).cmd_of(n) == old(self).cmd_of(
                    n,
                ),
            final(self).commands@.len() == old(self).commands@.len() + (if old(self).has_name(
                name@,
            ) {
                0int
            } else {
                1int
            }),
    {
        let ghost pre = *self;
        let n0 = self.commands.len();
        let mut k: usize = 0;
        while k < n0 && str_lt(self.commands[k].name.as_str(), name)
            invariant
                *self == pre,
                n0 == self.commands@.len(),
                k <= n0,
                forall|p: int| 0 <= p < k ==> lex_lt((#[trigger] self.commands@[p]).name@, name@),
            decreases n0 - k,
        {
            k = k + 1;
        }
        let cmd = Command::<F> {
            name: name.to_owned(),
            description: description.to_owned(),
            run: Some(run),
        };
        let replace = if k < n0 {
            !str_lt(name, self.commands[k].name.as_str())
        } else {
            false
        };
        if replace {
            proof {
                lemma_lex_lt_trichotomy(name@, pre.commands@[k as int].name@);
                assert(pre.commands@[k as int].name@ == name@);
            }
            self.commands.remove(k);
            self.commands.insert(k, cmd);
        } else {
            self.commands.insert(k, cmd);
        }
        proof {
            self.lemma_create_shape(pre, name@, cmd, k as int, replace);
        }
    }

    /// After a sorted insert or replace at position `k`, the registry is
    /// well formed again and holds exactly the expected entries.
    proof fn lemma_create_shape(
        self,
        pre: Commands<F>,
        name: Seq<char>,
        cmd: Command<F>,
        k: int,
        replace: bool,
    )
        requires
            pre.wf(),
            name.len() < usize::MAX,
            cmd.name@ == name,
            cmd.run matches Some(f) ==> forall|args: Vec<String>| call_requires(f, (args,)),
            cmd.run is Some,
            0 <= k <= pre.commands@.len(),
            forall|p: int| 0 <= p < k ==> lex_lt((#[trigger] pre.commands@[p]).name@, name),
            replace ==> k < pre.commands@.len() && pre.commands@[k].name@ == name,
            !replace && k < pre.commands@.len() ==> lex_lt(name, pre.commands@[k].name@),
            self.args == pre.args,
            replace ==> self.commands@ == pre.commands@.remove(k).insert(k, cmd),
            !replace ==> self.commands@ == pre.commands@.insert(k, cmd),
        ensures
            self.wf(),
            self.has_name(name),
            self.cmd_of(name) == cmd,
            forall|n: Seq<char>| n != name ==> self.has_name(n) == pre.has_name(n),
            forall|n: Seq<char>|
                n != name && pre.has_name(n) ==> self.cmd_of(n) == pre.cmd_of(n),
            self.commands@.len() == pre.commands@.len() + (if pre.has_name(name) {
                0int
            } else {
                1int
            }),
    {
        let pn = pre.commands@.len() as int;
        // Relate the new sequence to the old one, index by index.
        if replace {
            assert(self.commands@.len() == pn);
            assert forall|i: int| 0 <= i < pn implies self.commands@[i] == (if i == k {
                cmd
            } else {
                pre.commands@[i]
            }) by {
                assert(pre.commands@.remove(k) =~= pre.commands@.subrange(0, k)
                    + pre.commands@.subrange(k + 1, pn));
            }
        } else {
            assert(self.commands@.len() == pn + 1);
            assert forall|i: int| 0 <= i < pn + 1 implies self.commands@[i] == (if i < k {
                pre.commands@[i]
            } else if i == k {
                cmd
            } else {
                pre.commands@[i - 1]
            }) by {}
        }
        // Sortedness.
        assert forall|p: int, q: int|
            0 <= p < q < self.commands@.len() implies lex_lt(
            self.commands@[p].name@,
            self.commands@[q].name@,
        ) by {
            if replace {
                if p == k && q > k {
                    assert(lex_lt(pre.commands@[p].name@, pre.commands@[q].name@));
                } else if q == k && p < k {
                    assert(lex_lt(pre.commands@[p].name@, name));
                }
            } else {
                if p == k {
                    // q > k: the old entry at q - 1 follows `name`.
                    if q == k + 1 {
                        assert(lex_lt(name, pre.commands@[k].name@));
                    } else {
                        lemma_lex_lt_transitive(
                            name,
                            pre.commands@[k].name@,
                            pre.commands@[q - 1].name@,
                        );
                    }
                } else if q == k {
                    assert(lex_lt(pre.commands@[p].name@, name));
                }
            }
        }
        // Each remaining invariant conjunct carries over entry by entry.
        assert forall|i: int| 0 <= i < self.commands@.len() implies #[trigger] self
            .handler_callable(i) by {
            if i != k {
                let src: int = if replace || i < k {
                    i
                } else {
                    i - 1
                };
                assert(pre.handler_callable(src));
                assert(self.commands@[i] == pre.commands@[src]);
            }
        }
        assert forall|i: int|
            0 <= i < self.commands@.len() && (#[trigger] self.commands@[i]).run is None implies self
            .commands@[i].name@ == "help"@ by {
            if i != k {
                let src: int = if replace || i < k {
                    i
                } else {
                    i - 1
                };
                assert(self.commands@[i] == pre.commands@[src]);
            }
        }
        assert forall|i: int|
            0 <= i < self.commands@.len() implies (#[trigger] self.commands@[i]).name@.len()
            < usize::MAX by {
            if i != k {
                let src: int = if replace || i < k {
                    i
                } else {
                    i - 1
                };
                assert(self.commands@[i] == pre.commands@[src]);
            }
        }
        // The new entry is found under its name.
        self.lemma_index_of_is(name, k);
        // Other names are preserved in both directions.
        assert forall|n: Seq<char>| n != name implies self.has_name(n) == pre.has_name(n) by {
            if pre.has_name(n) {
                let j = pre.index_of(n);
                let jj: int = if replace || j < k {
                    j
                } else {
                    j + 1
                };
                assert(self.commands@[jj].name@ == n);
            }
            if self.has_name(n) {
                let j = self.index_of(n);
                let jj: int = if replace || j < k {
                    j
                } else {
                    j - 1
                };
                assert(pre.commands@[jj].name@ == n);
            }
        }
        assert forall|n: Seq<char>| n != name && pre.has_name(n) implies self.cmd_of(n)
            == pre.cmd_of(n) by {
            let j = pre.index_of(n);
            pre.lemma_index_of_is(n, j);
            let jj: int = if replace || j < k {
                j
            } else {
                j + 1
            };
            assert(self.commands@[jj] == pre.commands@[j]);
            self.lemma_index_of_is(n, jj);
        }
        // The built-in help entry is still present.
        assert(self.has_name("help"@)) by {
            if name != "help"@ {
                assert(pre.has_name("help"@));
            }
        }
        // Size change.
        if pre.has_name(name) {
            let j = pre.index_of(name);
            pre.lemma_index_of_is(name, j);
            if !replace {
                // A sorted registry cannot hold `name` away from the
                // insertion point.
                if j < k {
                    lemma_lex_lt_irreflexive(name);
                } else {
                    if k < pn {
                        if j == k {
                            lemma_lex_lt_irreflexive(name);
                        } else {
                            lemma_lex_lt_transitive(
                                name,
                                pre.commands@[k].name@,
                                pre.commands@[j].name@,
                            );
                            lemma_lex_lt_irreflexive(name);
                        }
                    }
                }
                assert(false);
            }
        } else {
            assert(!replace);
        }
    }

    /// Finds the position of the command named `name`, if one is
    /// registered.
    fn find(&self, name: &str) -> (r: Option<usize>)
        requires
            self.sorted(),
        ensures
            match r {
                Some(k) => {
                    &&& k < self.commands@.len()
                    &&& self.commands@[k as int].name@ == name@
                    &&& self.has_name(name@)
                    &&& self.index_of(name@) == k
                },
                None => !self.has_name(name@),
            },
    {
        let n = self.commands.len();
        let key = name.to_owned();
        let mut k: usize = 0;
        while k < n
            invariant
                self.sorted(),
                n == self.commands@.len(),
                k <= n,
                key@ == name@,
                forall|p: int| 0 <= p < k ==> (#[trigger] self.commands@[p]).name@ != name@,
            decreases n - k,
        {
            if self.commands[k].name == key {
                proof {
                    self.lemma_index_of_is(name@, k as int);
                }
                return Some(k);
            }
            k = k + 1;
        }
        None
    }
}

/// Column width that a command name is padded to in the usage listing.
pub const NAME_COLUMN_WIDTH: usize = 12;

/// A registered name is suggested for an unknown one when their edit
/// distance is strictly below this threshold.
pub const SUGGESTION_THRESHOLD: usize = 2;

/// `n` spaces (none when `n` is not positive).
pub open spec fn spaces(n: int) -> Seq<char>
    decreases n,
{
    if n <= 0 {
        Seq::empty()
    } else {
        spaces(n - 1).push(' ')
    }
}

/// How many spaces pad a name of length `l` out to the name column width.
pub open spec fn pad_width(l: int) -> int {
    if l < NAME_COLUMN_WIDTH as int {
        NAME_COLUMN_WIDTH as int - l
    } else {
        0
    }
}

/// The first line of the usage block.
pub open spec fn usage_header_line(program: Seq<char>) -> Seq<char> {
    "Usage: "@ + program + " <command> [options]"@
}

/// One command's entry in the usage listing: the indented name, padded to
/// the name column width, followed by its description.
pub open spec fn usage_entry_line(name: Seq<char>, desc: Seq<char>) -> Seq<char> {
    "    "@ + name + spaces(pad_width(name.len() as int)) + " "@ + desc
}

/// A single command's usage line.
pub open spec fn command_usage_line(name: Seq<char>, desc: Seq<char>) -> Seq<char> {
    "Usage: "@ + name + " - "@ + desc
}

/// The line reporting an unknown command name.
pub open spec fn not_found_line(name: Seq<char>) -> Seq<char> {
    "Command not found: "@ + name
}

/// The line reporting a handler failure.
pub open spec fn error_line(msg: Seq<char>) -> Seq<char> {
    "Error: "@ + msg
}

/// One suggested name in the "May you mean:" block.
pub open spec fn suggestion_entry_line(name: Seq<char>) -> Seq<char> {
    "    "@ + name
}

/// The names among `names` within edit distance 1 of `target`, in order.
pub open spec fn close_names_of(names: Seq<Seq<char>>, target: Seq<char>) -> Seq<Seq<char>>
    decreases names.len(),
{
    if names.len() == 0 {
        Seq::empty()
    } else {
        close_names_of(names.drop_last(), target) + (if edit_dist(target, names.last())
            < SUGGESTION_THRESHOLD as nat {
            seq![names.last()]
        } else {
            Seq::empty()
        })
    }
}

/// The deep view of a string vector is its strings' views, index by
/// index.
proof fn lemma_deep_view_index(v: Vec<String>)
    ensures
        v.deep_view().len() == v@.len(),
        forall|i: int| 0 <= i < v@.len() ==> #[trigger] v.deep_view()[i] == v@[i]@,
{
}

/// A name stands in the close-names list exactly when it occurs among
/// `names` and lies within the suggestion threshold of `target`.
pub proof fn lemma_close_names_of_membership(names: Seq<Seq<char>>, target: Seq<char>, x: Seq<char>)
    ensures
        close_names_of(names, target).contains(x) <==> (names.contains(x) && edit_dist(target, x)
            < SUGGESTION_THRESHOLD as nat),
    decreases names.len(),
{
    if names.len() > 0 {
        lemma_close_names_of_membership(names.drop_last(), target, x);
        let rest = close_names_of(names.drop_last(), target);
        let tail: Seq<Seq<char>> = if edit_dist(target, names.last()) < SUGGESTION_THRESHOLD
            as nat {
            seq![names.last()]
        } else {
            Seq::empty()
        };
        assert(close_names_of(names, target) == rest + tail);
        if (rest + tail).contains(x) {
            let i = choose|i: int| 0 <= i < (rest + tail).len() && (rest + tail)[i] == x;
            if i < rest.len() {
                assert(rest.contains(x));
                assert(names.drop_last().contains(x));
                let j = choose|j: int|
                    0 <= j < names.drop_last().len() && names.drop_last()[j] == x;
                assert(names[j] == x);
            } else {
                assert(x == names.last());
                assert(names[names.len() - 1] == x);
            }
        }
        if names.contains(x) && edit_dist(target, x) < SUGGESTION_THRESHOLD as nat {
            let j = choose|j: int| 0 <= j < names.len() && names[j] == x;
            if j < names.len() - 1 {
                assert(names.drop_last()[j] == x);
                assert(names.drop_last().contains(x));
                let i = choose|i: int| 0 <= i < rest.len() && rest[i] == x;
                assert((rest + tail)[i] == x);
                assert((rest + tail).contains(x));
            } else {
                assert(x == names.last());
                assert((rest + tail)[rest.len() as int] == x);
                assert((rest + tail).contains(x));
            }
        }
    }
}

/// Appends `n` spaces to `s`.
fn push_spaces(s: &mut String, n: usize)
    ensures
        final(s)@ == old(s)@ + spaces(n as int),
{
    proof {
        assert(old(s)@ + spaces(0) =~= old(s)@);
    }
    let mut i: usize = 0;
    while i < n
        invariant
            i <= n,
            s@ == old(s)@ + spaces(i as int),
        decreases n - i,
    {
        s.append(" ");
        proof {
            reveal_strlit(" ");
            assert(spaces(i + 1) == spaces(i as int).push(' '));
            assert((old(s)@ + spaces(i as int)) + " "@ =~= old(s)@ + spaces(i + 1));
        }
        i = i + 1;
    }
}

/// Builds one command's entry in the usage listing.
fn usage_entry(name: &str, desc: &str) -> (line: String)
    ensures
        line@ == usage_entry_line(name@, desc@),
{
    let mut line = String::from_str("    ");
    line.append(name);
    let l = name.unicode_len();
    if l < NAME_COLUMN_WIDTH {
        push_spaces(&mut line, NAME_COLUMN_WIDTH - l);
    } else {
        proof {
            assert(("    "@ + name@) + spaces(pad_width(name@.len() as int)) =~= "    "@ + name@);
        }
    }
    proof {
        assert(line@ == "    "@ + name@ + spaces(pad_width(name@.len() as int)));
    }
    line.append(" ");
    line.append(desc);
    line
}

impl<F: Fn(Vec<String>) -> CommandResult> Commands<F> {
    /// The names of the registered commands, in registry order.
    pub open spec fn names(self) -> Seq<Seq<char>> {
        self.commands@.map_values(|c: Command<F>| c.name@)
    }

    /// The usage block: a header naming the program, then every
    /// registered command with its description, in registry order.
    pub open spec fn usage_lines(self) -> Seq<Seq<char>> {
        seq![usage_header_line(self.args@[0]@), "Commands:"@] + self.commands@.map_values(
            |c: Command<F>| usage_entry_line(c.name@, c.description@),
        )
    }

    /// What looking up a single name prints: its usage line when
    /// registered, and a not-found message followed by the full usage
    /// block otherwise.
    pub open spec fn command_usage_lines(self, name: Seq<char>) -> Seq<Seq<char>> {
        if self.has_name(name) {
            seq![command_usage_line(name, self.cmd_of(name).description@)]
        } else {
            seq![not_found_line(name)] + self.usage_lines()
        }
    }

    /// The registered names within edit distance 1 of `target`.
    pub open spec fn close_names(self, target: Seq<char>) -> Seq<Seq<char>> {
        close_names_of(self.names(), target)
    }

    /// The "May you mean:" block over the close names.
    pub open spec fn suggestion_lines(self, target: Seq<char>) -> Seq<Seq<char>> {
        seq!["May you mean:"@] + self.close_names(target).map_values(
            |n: Seq<char>| suggestion_entry_line(n),
        )
    }

    /// The lines that `help` produces: the usage block when no topics
    /// follow the subcommand name, else one lookup per topic.
    pub open spec fn help_token_lines(self, upto: int) -> Seq<Seq<char>>
        decreases upto,
    {
        if upto <= 2 {
            Seq::<Seq<char>>::empty()
        } else {
            self.help_token_lines(upto - 1) + self.command_usage_lines(self.args@[upto - 1]@)
        }
    }

    /// The full output of the `help` action.
    pub open spec fn help_lines(self) -> Seq<Seq<char>> {
        if self.args@.len() <= 2 {
            self.usage_lines()
        } else {
            self.help_token_lines(self.args@.len() as int)
        }
    }

    /// What the handler's verdict adds to the output: nothing on success,
    /// the command's usage line and the error message on failure.
    pub open spec fn handler_outcome_lines(self, name: Seq<char>, res: CommandResult) -> Seq<
        Seq<char>,
    > {
        match res {
            Ok(_) => Seq::<Seq<char>>::empty(),
            Err(msg) => seq![
                command_usage_line(name, self.cmd_of(name).description@),
                error_line(msg@),
            ],
        }
    }

    /// The usage listing names the registered commands in strictly
    /// ascending lexicographic order, whatever order they were
    /// registered in: entry `i` of the listing body describes command
    /// `i` of the registry, and the registry's names ascend.
    pub proof fn lemma_usage_listing_sorted(self)
        requires
            self.wf(),
        ensures
            self.usage_lines().len() == 2 + self.commands@.len(),
            forall|i: int|
                0 <= i < self.commands@.len() ==> self.usage_lines()[i + 2] == usage_entry_line(
                    (#[trigger] self.commands@[i]).name@,
                    self.commands@[i].description@,
                ),
            forall|p: int, q: int|
                0 <= p < q < self.commands@.len() ==> lex_lt(
                    (#[trigger] self.commands@[p]).name@,
                    (#[trigger] self.commands@[q]).name@,
                ),
    {
        let entries = self.commands@.map_values(
            |c: Command<F>| usage_entry_line(c.name@, c.description@),
        );
        assert forall|i: int| 0 <= i < self.commands@.len() implies self.usage_lines()[i + 2]
            == usage_entry_line(
            (#[trigger] self.commands@[i]).name@,
            self.commands@[i].description@,
        ) by {
            assert(entries[i] == usage_entry_line(
                self.commands@[i].name@,
                self.commands@[i].description@,
            ));
        }
    }

    /// Builds the usage block.
    fn usage_vec(&self) -> (out: Vec<String>)
        requires
            self.args@.len() >= 1,
        ensures
            out.deep_view() == self.usage_lines(),
    {
        let ghost entries = self.commands@.map_values(
            |c: Command<F>| usage_entry_line(c.name@, c.description@),
        );
        let mut out: Vec<String> = Vec::new();
        let mut header = String::from_str("Usage: ");
        header.append(self.args[0].as_str());
        header.append(" <command> [options]");
        out.push(header);
        out.push(String::from_str("Commands:"));
        proof {
            assert(out.deep_view() =~= seq![
                usage_header_line(self.args@[0]@),
                "Commands:"@,
            ] + entries.subrange(0, 0));
        }
        let n = self.commands.len();
        let mut k: usize = 0;
        while k < n
            invariant
                self.args@.len() >= 1,
                n == self.commands@.len(),
                k <= n,
                entries == self.commands@.map_values(
                    |c: Command<F>| usage_entry_line(c.name@, c.description@),
                ),
                out.deep_view() == seq![
                    usage_header_line(self.args@[0]@),
                    "Commands:"@,
                ] + entries.subrange(0, k as int),
            decreases n - k,
        {
            let line = usage_entry(
                self.commands[k].name.as_str(),
                self.commands[k].description.as_str(),
            );
            let ghost out_snap = out;
            out.push(line);
            k = k + 1;
            proof {
                lemma_deep_view_index(out_snap);
                lemma_deep_view_index(out);
                assert(entries[k - 1] == usage_entry_line(
                    self.commands@[k - 1].name@,
                    self.commands@[k - 1].description@,
                ));
                let target = seq![
                    usage_header_line(self.args@[0]@),
                    "Commands:"@,
                ] + entries.subrange(0, k as int);
                assert forall|i: int| 0 <= i < out.deep_view().len() implies out.deep_view()[i]
                    == target[i] by {
                    if i < out_snap@.len() {
                        assert(out.deep_view()[i] == out_snap.deep_view()[i]);
                    } else {
                        assert(target[i] == entries[k - 1]);
                    }
                }
                assert(out.deep_view() =~= target);
            }
        }
        proof {
            assert(entries.subrange(0, n as int) =~= entries);
        }
        out
    }

    /// Looks one command name up and reports its usage line, or a
    /// not-found message followed by the full usage block.
    pub fn command_usage(&self, command_name: &str) -> (out: Vec<String>)
        requires
            self.wf(),
            self.args@.len() >= 1,
        ensures
            out.deep_view() == self.command_usage_lines(command_name@),
    {
        match self.find(command_name) {
            Some(k) => {
                let mut line = String::from_str("Usage: ");
                line.append(self.commands[k].name.as_str());
                line.append(" - ");
                line.append(self.commands[k].description.as_str());
                let mut out: Vec<String> = Vec::new();
                out.push(line);
                proof {
                    assert(out.deep_view() =~= self.command_usage_lines(command_name@));
                }
                out
            },
            None => {
                let mut nf = String::from_str("Command not found: ");
                nf.append(command_name);
                let mut out: Vec<String> = Vec::new();
                out.push(nf);
                let mut rest = self.usage_vec();
                let ghost rest_snap = rest;
                out.append(&mut rest);
                proof {
                    let target = seq![not_found_line(command_name@)] + self.usage_lines();
                    assert forall|i: int| 0 <= i < out.deep_view().len() implies out.deep_view()[i]
                        == target[i] by {
                        if i >= 1 {
                            assert(rest_snap.deep_view()[i - 1] == self.usage_lines()[i - 1]);
                        }
                    }
                    assert(out.deep_view() =~= target);
                }
                out
            },
        }
    }

    /// Collects the registered names within edit distance 1 of `target`.
    fn close_commands(&self, target: &str) -> (v: Vec<String>)
        requires
            self.wf(),
            target@.len() < usize::MAX,
        ensures
            v.deep_view() == self.close_names(target@),
    {
        let ghost names = self.names();
        let mut v: Vec<String> = Vec::new();
        let n = self.commands.len();
        let mut k: usize = 0;
        proof {
            assert(v.deep_view() =~= close_names_of(names.subrange(0, 0), target@));
        }
        while k < n
            invariant
                self.wf(),
                target@.len() < usize::MAX,
                n == self.commands@.len(),
                k <= n,
                names == self.names(),
                v.deep_view() == close_names_of(names.subrange(0, k as int), target@),
            decreases n - k,
        {
            let d = levenshtein_distance(target, self.commands[k].name.as_str());
            proof {
                assert(names.subrange(0, k + 1).drop_last() =~= names.subrange(0, k as int));
                assert(names.subrange(0, k + 1).last() == names[k as int]);
                assert(names[k as int] == self.commands@[k as int].name@);
            }
            if d < SUGGESTION_THRESHOLD {
                v.push(self.commands[k].name.clone());
                proof {
                    assert(v.deep_view() =~= close_names_of(names.subrange(0, k + 1), target@));
                }
            } else {
                proof {
                    assert(v.deep_view() =~= close_names_of(names.subrange(0, k + 1), target@));
                }
            }
            k = k + 1;
        }
        proof {
            assert(names.subrange(0, n as int) =~= names);
        }
        v
    }

    /// Builds the lines of the `help` action.
    fn help_vec(&self) -> (out: Vec<String>)
        requires
            self.wf(),
            self.args@.len() >= 1,
        ensures
            out.deep_view() == self.help_lines(),
    {
        if self.args.len() <= 2 {
            self.usage_vec()
        } else {
            let mut out: Vec<String> = Vec::new();
            proof {
                assert(out.deep_view() =~= self.help_token_lines(2));
            }
            let mut k: usize = 2;
            while k < self.args.len()
                invariant
                    self.wf(),
                    self.args@.len() >= 1,
                    2 <= k <= self.args@.len(),
                    out.deep_view() == self.help_token_lines(k as int),
                decreases self.args@.len() - k,
            {
                let mut block = self.command_usage(self.args[k].as_str());
                let ghost out_snap = out;
                let ghost block_snap = block;
                out.append(&mut block);
                k = k + 1;
                proof {
                    let target = self.help_token_lines(k as int);
                    assert(target == self.help_token_lines(k - 1) + self.command_usage_lines(
                        self.args@[k - 1]@,
                    ));
                    assert forall|i: int| 0 <= i < out.deep_view().len() implies out.deep_view()[i]
                        == target[i] by {
                        if i < out_snap.deep_view().len() {
                            assert(out_snap.deep_view()[i] == self.help_token_lines(k - 1)[i]);
                        } else {
                            assert(block_snap.deep_view()[i - out_snap.deep_view().len()]
                                == self.command_usage_lines(self.args@[k - 1]@)[i
                                - out_snap.deep_view().len()]);
                        }
                    }
                    assert(out.deep_view() =~= target);
                }
            }
            out
        }
    }
}

/// The dispatcher's three entry actions.  `run` resolves the invocation
/// to a command and invokes it; `usage` lists the registered commands;
/// `help` reports usage lines for the requested topics.  Each returns the
/// lines it produces instead of printing them.
pub trait CommandRunner: Sized {
    /// The states the dispatcher may be invoked on.
    spec fn runner_valid(&self) -> bool;

    /// Relates the dispatcher's output and final state to its state at
    /// entry.
    spec fn run_post(pre: Self, post: Self, out: Seq<Seq<char>>) -> bool;

    /// What the usage listing holds.
    spec fn usage_post(&self, out: Seq<Seq<char>>) -> bool;

    /// What the help output holds.
    spec fn help_post(&self, out: Seq<Seq<char>>) -> bool;

    /// Dispatches the invocation arguments to the matching command.
    fn run(&mut self) -> (out: Vec<String>)
        requires
            old(self).runner_valid(),
        ensures
            Self::run_post(*old(self), *final(self), out.deep_view()),
    ;

    /// Produces the usage block.
    fn usage(&self) -> (out: Vec<String>)
        requires
            self.runner_valid(),
        ensures
            self.usage_post(out.deep_view()),
    ;

    /// Produces the help output.
    fn help(&self) -> (out: Vec<String>)
        requires
            self.runner_valid(),
        ensures
            self.help_post(out.deep_view()),
    ;
}

impl<F: Fn(Vec<String>) -> CommandResult> CommandRunner for Commands<F> {
    /// The registry invariant, a program name to report, and arguments
    /// short enough to measure edit distances against.
    open spec fn runner_valid(&self) -> bool {
        &&& self.wf()
        &&& self.args@.len() >= 1
        &&& forall|i: int| 0 <= i < self.args@.len() ==> (#[trigger] self.args@[i])@.len()
            < usize::MAX
    }

    /// With fewer than two arguments, the output is the usage block.
    /// Otherwise the second argument names the requested command: the
    /// built-in `help` yields the help output; a registered command is
    /// invoked on exactly the remaining arguments, silently on success
    /// and reporting its usage line and error message on failure; an
    /// unknown name yields the suggestion block when near matches exist,
    /// and a not-found message with the usage block otherwise.  The
    /// registry itself never changes.
    open spec fn run_post(pre: Self, post: Self, out: Seq<Seq<char>>) -> bool {
        &&& post == pre
        &&& if pre.args@.len() < 2 {
            out == pre.usage_lines()
        } else {
            let name = pre.args@[1]@;
            if pre.has_name(name) {
                if name == "help"@ {
                    out == pre.help_lines()
                } else {
                    exists|rest: Vec<String>, res: CommandResult|
                        {
                            &&& rest@ == pre.args@.skip(2)
                            &&& #[trigger] call_ensures(pre.cmd_of(name).run->0, (rest,), res)
                            &&& out == pre.handler_outcome_lines(name, res)
                        }
                }
            } else if pre.close_names(name).len() > 0 {
                out == pre.suggestion_lines(name)
            } else {
                out == seq![not_found_line(name)] + pre.usage_lines()
            }
        }
    }

    open spec fn usage_post(&self, out: Seq<Seq<char>>) -> bool {
        out == self.usage_lines()
    }

    open spec fn help_post(&self, out: Seq<Seq<char>>) -> bool {
        out == self.help_lines()
    }

    fn run(&mut self) -> (out: Vec<String>) {
        let ghost pre = *self;
        if self.args.len() < 2 {
            let out = self.usage();
            return out;
        }
        let name_owned = self.args[1].clone();
        match self.find(name_owned.as_str()) {
            Some(k) => {
                let help_key = String::from_str("help");
                if self.commands[k].name == help_key {
                    let out = self.help();
                    return out;
                }
                let mut rest: Vec<String> = Vec::new();
                let mut j: usize = 2;
                proof {
                    assert(rest@ =~= self.args@.subrange(2, 2));
                }
                while j < self.args.len()
                    invariant
                        2 <= j <= self.args@.len(),
                        rest@ == self.args@.subrange(2, j as int),
                    decreases self.args@.len() - j,
                {
                    let s = self.args[j].clone();
                    rest.push(s);
                    j = j + 1;
                    proof {
                        assert(rest@ =~= self.args@.subrange(2, j as int));
                    }
                }
                proof {
                    assert(rest@ =~= self.args@.skip(2));
                }
                let ghost rest_g = rest;
                let res = match &self.commands[k].run {
                    Some(f) => {
                        proof {
                            assert(self.handler_callable(k as int));
                        }
                        f(rest)
                    },
                    None => {
                        // A found entry other than `help` always carries
                        // a handler, so this arm is unreachable.
                        proof {
                            assert(false);
                        }
                        Err(String::new())
                    },
                };
                let ghost res_g = res;
                proof {
                    assert(call_ensures(pre.cmd_of(name_owned@).run->0, (rest_g,), res_g));
                }
                match res {
                    Ok(_code) => {
                        let out: Vec<String> = Vec::new();
                        proof {
                            assert(res_g is Ok);
                            assert(out.deep_view() =~= pre.handler_outcome_lines(
                                name_owned@,
                                res_g,
                            ));
                        }
                        out
                    },
                    Err(err) => {
                        let mut out = self.command_usage(name_owned.as_str());
                        let mut eline = String::from_str("Error: ");
                        eline.append(err.as_str());
                        let ghost out_snap = out;
                        out.push(eline);
                        proof {
                            lemma_deep_view_index(out_snap);
                            lemma_deep_view_index(out);
                            assert(out_snap.deep_view()[0] == self.command_usage_lines(
                                name_owned@,
                            )[0]);
                            assert(out.deep_view() =~= pre.handler_outcome_lines(
                                name_owned@,
                                res_g,
                            ));
                        }
                        out
                    },
                }
            },
            None => {
                let sugg = self.close_commands(name_owned.as_str());
                if sugg.len() > 0 {
                    let mut out: Vec<String> = Vec::new();
                    out.push(String::from_str("May you mean:"));
                    proof {
                        assert(out.deep_view() =~= seq!["May you mean:"@] + self.close_names(
                            name_owned@,
                        ).map_values(|n: Seq<char>| suggestion_entry_line(n)).subrange(0, 0));
                    }
                    let ghost items = self.close_names(name_owned@).map_values(
                        |n: Seq<char>| suggestion_entry_line(n),
                    );
                    let mut t: usize = 0;
                    while t < sugg.len()
                        invariant
                            t <= sugg@.len(),
                            sugg.deep_view() == self.close_names(name_owned@),
                            items == self.close_names(name_owned@).map_values(
                                |n: Seq<char>| suggestion_entry_line(n),
                            ),
                            out.deep_view() == seq!["May you mean:"@] + items.subrange(
                                0,
                                t as int,
                            ),
                        decreases sugg@.len() - t,
                    {
                        let mut line = String::from_str("    ");
                        line.append(sugg[t].as_str());
                        let ghost out_snap = out;
                        out.push(line);
                        t = t + 1;
                        proof {
                            lemma_deep_view_index(out_snap);
                            lemma_deep_view_index(out);
                            lemma_deep_view_index(sugg);
                            assert(sugg.deep_view()[t - 1] == self.close_names(name_owned@)[t
                                - 1]);
                            assert(items[t - 1] == suggestion_entry_line(
                                self.close_names(name_owned@)[t - 1],
                            ));
                            let target = seq!["May you mean:"@] + items.subrange(0, t as int);
                            assert forall|i: int|
                                0 <= i < out.deep_view().len() implies out.deep_view()[i]
                                == target[i] by {
                                if i < out_snap@.len() {
                                    assert(out.deep_view()[i] == out_snap.deep_view()[i]);
                                } else {
                                    assert(target[i] == items[t - 1]);
                                }
                            }
                            assert(out.deep_view() =~= target);
                        }
                    }
                    proof {
                        assert(items.subrange(0, sugg@.len() as int) =~= items);
                        assert(out.deep_view() =~= self.suggestion_lines(name_owned@));
                    }
                    out
                } else {
                    let mut nf = String::from_str("Command not found: ");
                    nf.append(name_owned.as_str());
                    let mut out: Vec<String> = Vec::new();
                    out.push(nf);
                    let mut rest = self.usage_vec();
                    let ghost rest_snap = rest;
                    out.append(&mut rest);
                    proof {
                        let target = seq![not_found_line(name_owned@)] + self.usage_lines();
                        assert forall|i: int|
                            0 <= i < out.deep_view().len() implies out.deep_view()[i] == target[i]
                        by {
                            if i >= 1 {
                                assert(rest_snap.deep_view()[i - 1] == self.usage_lines()[i - 1]);
                            }
                        }
                        assert(out.deep_view() =~= target);
                    }
                    out
                }
            },
        }
    }

    fn usage(&self) -> (out: Vec<String>) {
        self.usage_vec()
    }

    fn help(&self) -> (out: Vec<String>) {
        self.help_vec()
    }
}

} // verus!
