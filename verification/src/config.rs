//! Invocation and color configuration.
//!
//! The command line is read into a plain options record; the legacy flag
//! form maps onto the same run configuration the subcommands build. Column
//! colors come as a comma-separated `column=color` override string, with
//! unknown color names ignored.

use vstd::prelude::*;

use crate::format::{is_valid_color, spec_is_valid_color};
use crate::text::{chars_vec, spec_split_char, spec_trim, split_char, str_eq, string_from_chars,
    subvec, trim};

verus! {

/// The parsed command-line options, as plain values.
#[derive(Debug)]
pub struct Cli {
    /// Port number to inspect, or a process-name filter, or `scan`.
    pub target: Option<String>,
    /// Kill the process on this port.
    pub kill: Option<u16>,
    /// Force kill rather than asking politely.
    pub force: bool,
    /// Show all ports, not only listening ones.
    pub all: bool,
    /// Output as JSON.
    pub json: bool,
    /// Enrich output with container ownership.
    pub docker: bool,
    /// Don't use colors.
    pub no_color: bool,
    /// Live-refresh the display.
    pub watch: bool,
    /// Don't truncate the command column.
    pub wide: bool,
}

/// What one run of the display needs to know.
#[derive(Debug)]
pub struct RunConfig {
    pub target: Option<String>,
    pub force: bool,
    pub all: bool,
    pub json: bool,
    pub docker: bool,
    pub watch: bool,
    pub wide: bool,
}

impl RunConfig {
    /// Build the run configuration from the legacy flag-and-positional
    /// invocation form.
    pub fn from_legacy(cli: &Cli) -> (r: Self)
        ensures
            r.target == cli.target,
            r.force == cli.force,
            r.all == cli.all,
            r.json == cli.json,
            r.docker == cli.docker,
            r.watch == cli.watch,
            r.wide == cli.wide,
    {
        Self {
            target: match &cli.target {
                Some(t) => Some(t.clone()),
                None => None,
            },
            force: cli.force,
            all: cli.all,
            json: cli.json,
            docker: cli.docker,
            watch: cli.watch,
            wide: cli.wide,
        }
    }
}

/// The color name of each table column.
#[derive(Debug)]
pub struct ColorConfig {
    pub port: String,
    pub proto: String,
    pub pid: String,
    pub local_addr: String,
    pub user: String,
    pub process: String,
    pub uptime: String,
    pub mem: String,
    pub command: String,
}

/// The view of a color configuration: each column's color name.
pub struct ColorConfigView {
    pub port: Seq<char>,
    pub proto: Seq<char>,
    pub pid: Seq<char>,
    pub local_addr: Seq<char>,
    pub user: Seq<char>,
    pub process: Seq<char>,
    pub uptime: Seq<char>,
    pub mem: Seq<char>,
    pub command: Seq<char>,
}

impl View for ColorConfig {
    type V = ColorConfigView;

    open spec fn view(&self) -> ColorConfigView {
        ColorConfigView {
            port: self.port@,
            proto: self.proto@,
            pid: self.pid@,
            local_addr: self.local_addr@,
            user: self.user@,
            process: self.process@,
            uptime: self.uptime@,
            mem: self.mem@,
            command: self.command@,
        }
    }
}

/// The stock color of each column.
pub open spec fn spec_default_colors() -> ColorConfigView {
    ColorConfigView {
        port: "cyan"@,
        proto: "dimmed"@,
        pid: "yellow"@,
        local_addr: "grey"@,
        user: "green"@,
        process: "bold"@,
        uptime: "dimmed"@,
        mem: "dimmed"@,
        command: "white"@,
    }
}

impl Default for ColorConfig {
    /// The stock colors.
    fn default() -> (r: Self)
        ensures
            r@ == spec_default_colors(),
    {
        ColorConfig {
            port: String::from_str("cyan"),
            proto: String::from_str("dimmed"),
            pid: String::from_str("yellow"),
            local_addr: String::from_str("grey"),
            user: String::from_str("green"),
            process: String::from_str("bold"),
            uptime: String::from_str("dimmed"),
            mem: String::from_str("dimmed"),
            command: String::from_str("white"),
        }
    }
}

/// The configuration after one `key=value` pair: a pair without `=`, with a
/// color name the display does not accept, or with an unknown key changes
/// nothing. The address column takes no override.
pub open spec fn spec_apply_pair(c: ColorConfigView, pair: Seq<char>) -> ColorConfigView {
    let t = spec_trim(pair);
    let e = crate::text::char_pos(t, '=') as int;
    if e == t.len() {
        c
    } else {
        let key = spec_trim(t.take(e));
        let value = spec_trim(t.skip(e + 1));
        if !spec_is_valid_color(value) {
            c
        } else if key == "port"@ {
            ColorConfigView { port: value, ..c }
        } else if key == "proto"@ {
            ColorConfigView { proto: value, ..c }
        } else if key == "pid"@ {
            ColorConfigView { pid: value, ..c }
        } else if key == "user"@ {
            ColorConfigView { user: value, ..c }
        } else if key == "process"@ {
            ColorConfigView { process: value, ..c }
        } else if key == "uptime"@ {
            ColorConfigView { uptime: value, ..c }
        } else if key == "mem"@ {
            ColorConfigView { mem: value, ..c }
        } else if key == "command"@ {
            ColorConfigView { command: value, ..c }
        } else {
            c
        }
    }
}

/// The configuration after a whole comma-separated override string.
pub open spec fn spec_apply_overrides(c: ColorConfigView, pairs: Seq<Seq<char>>) -> ColorConfigView
    decreases pairs.len(),
{
    if pairs.len() == 0 {
        c
    } else {
        spec_apply_pair(spec_apply_overrides(c, pairs.drop_last()), pairs.last())
    }
}

impl ColorConfig {
    /// Apply a comma-separated `column=color` override string, as the
    /// environment supplies it; pairs that do not parse, name an unknown
    /// column, or carry an unaccepted color are ignored.
    pub fn apply_overrides(&mut self, val: &str)
        ensures
            final(self)@ == spec_apply_overrides(
                old(self)@,
                spec_split_char(val@, ','),
            ),
    {
        let cs = chars_vec(val);
        let pairs = split_char(&cs, ',');
        let ghost pviews = spec_split_char(val@, ',');
        let n = pairs.len();
        let mut i: usize = 0;
        proof {
            assert(pviews.take(0) =~= Seq::<Seq<char>>::empty());
        }
        while i < n
            invariant
                n == pairs@.len() == pviews.len(),
                pairs@.map_values(|t: Vec<char>| t@) == pviews,
                0 <= i <= n,
                self@ == spec_apply_overrides(old(self)@, pviews.take(i as int)),
            decreases n - i,
        {
            let pair = &pairs[i];
            proof {
                assert(pair@ == pviews[i as int]);
                assert(pviews.take(i as int + 1).drop_last() =~= pviews.take(i as int));
                assert(pviews.take(i as int + 1).last() == pair@);
            }
            let t = trim(pair);
            let e = crate::text::find_char_from(&t, '=', 0);
            proof {
                assert(t@.skip(0) =~= t@);
            }
            if e < t.len() {
                let key_half = subvec(&t, 0, e);
                let value_half = subvec(&t, e + 1, t.len());
                proof {
                    assert(key_half@ =~= t@.take(e as int));
                    assert(value_half@ =~= t@.skip(e as int + 1));
                }
                let key_cs = trim(&key_half);
                let value_cs = trim(&value_half);
                let key = string_from_chars(&key_cs);
                let value = string_from_chars(&value_cs);
                if is_valid_color(value.as_str()) {
                    if str_eq(key.as_str(), "port") {
                        self.port = value;
                    } else if str_eq(key.as_str(), "proto") {
                        self.proto = value;
                    } else if str_eq(key.as_str(), "pid") {
                        self.pid = value;
                    } else if str_eq(key.as_str(), "user") {
                        self.user = value;
                    } else if str_eq(key.as_str(), "process") {
                        self.process = value;
                    } else if str_eq(key.as_str(), "uptime") {
                        self.uptime = value;
                    } else if str_eq(key.as_str(), "mem") {
                        self.mem = value;
                    } else if str_eq(key.as_str(), "command") {
                        self.command = value;
                    }
                }
            }
            proof {
                assert(self@ =~= spec_apply_overrides(old(self)@, pviews.take(i as int + 1)));
            }
            i += 1;
        }
        proof {
            assert(pviews.take(n as int) =~= pviews);
        }
    }
}

} // verus!
