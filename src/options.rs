//! Reading options: command-line arguments and rc-file lines become
//! `Settings`.
//!
//! Options are read in order, rc-file options first (the file's last line
//! first), then the arguments. `name=value` options set a field; a later
//! option overrides an earlier one. Unknown options are ignored.

use crate::histogram::ladder;
use crate::settings::{PreTallied, Settings};
use crate::tally::texts;
use crate::text::{char_count, count_of, parse_count, push_str, same_text};
use vstd::prelude::*;
use vstd::string::StrSliceExecFns;

verus! {

/// Why options could not be read.
#[derive(Debug, Clone, Copy, PartialEq, Eq, Structural)]
pub enum SettingsError {
    /// Help was asked for.
    Help,
    /// An option that needs `=value` came without one.
    MissingValue,
    /// A width that is not a number.
    InvalidWidth,
    /// A height that is not a number.
    InvalidHeight,
    /// A graph order other than `vk` or `kv`.
    InvalidGraph,
    /// A palette with fewer than five comma-separated colours.
    InvalidPalette,
    /// An empty bar glyph.
    EmptyChar,
}

/// Index of the first `c` in `s`.
pub open spec fn find_char(s: Seq<char>, c: char) -> Option<nat>
    decreases s.len(),
{
    if s.len() == 0 {
        None
    } else if s[0] == c {
        Some(0)
    } else {
        match find_char(s.drop_first(), c) {
            Some(i) => Some(i + 1),
            None => None,
        }
    }
}

proof fn lemma_find_char(s: Seq<char>, c: char)
    ensures
        match find_char(s, c) {
            Some(i) => i < s.len() && s[i as int] == c && forall|j: int| 0 <= j < i ==> s[j] != c,
            None => forall|j: int| 0 <= j < s.len() ==> s[j] != c,
        },
    decreases s.len(),
{
    if s.len() > 0 && s[0] != c {
        lemma_find_char(s.drop_first(), c);
        assert forall|j: int| 1 <= j < s.len() implies s[j] == s.drop_first()[j - 1] by {}
    }
}

/// The name part of an option: what precedes its first `=`.
pub open spec fn opt_name(a: Seq<char>) -> Seq<char> {
    match find_char(a, '=') {
        Some(i) => a.take(i as int),
        None => a,
    }
}

/// The value part of an option: what follows its first `=`, if any.
pub open spec fn opt_value(a: Seq<char>) -> Option<Seq<char>> {
    match find_char(a, '=') {
        Some(i) => Some(a.skip(i as int + 1)),
        None => None,
    }
}

/// A size written in decimal, with an optional leading `+`.
pub open spec fn usize_of(s: Seq<char>) -> Option<usize> {
    let digits = if s.len() > 0 && s[0] == '+' {
        s.drop_first()
    } else {
        s
    };
    match count_of(digits) {
        Some(n) => if n <= usize::MAX {
            Some(n as usize)
        } else {
            None
        },
        None => None,
    }
}

/// `s` split at `c`, into at most `n` pieces; the last holds the rest.
pub open spec fn split_n(s: Seq<char>, c: char, n: nat) -> Seq<Seq<char>>
    decreases n,
{
    if n <= 1 {
        seq![s]
    } else {
        match find_char(s, c) {
            None => seq![s],
            Some(i) => seq![s.take(i as int)] + split_n(s.skip(i as int + 1), c, (n - 1) as nat),
        }
    }
}

/// An rc-file line without its comment.
pub open spec fn strip_comment(l: Seq<char>) -> Seq<char> {
    match find_char(l, '#') {
        Some(i) => l.take(i as int),
        None => l,
    }
}

/// The options of rc-file lines: the non-empty lines without comments,
/// last line first.
pub open spec fn rc_options(lines: Seq<Seq<char>>) -> Seq<Seq<char>>
    decreases lines.len(),
{
    if lines.len() == 0 {
        Seq::empty()
    } else if strip_comment(lines.last()).len() > 0 {
        seq![strip_comment(lines.last())] + rc_options(lines.drop_last())
    } else {
        rc_options(lines.drop_last())
    }
}

/// The options read so far.
pub struct OptionsView {
    pub width_arg: usize,
    pub height_arg: usize,
    pub histogram_char: Seq<char>,
    pub colourised: bool,
    pub graph_values: PreTallied,
    pub palette: Seq<char>,
    pub size: Seq<char>,
    pub tokenize: Seq<char>,
    pub match_regexp: Seq<char>,
}

/// Before any option is read.
pub open spec fn default_options() -> OptionsView {
    OptionsView {
        width_arg: 0,
        height_arg: 0,
        histogram_char: "-"@,
        colourised: false,
        graph_values: PreTallied::NA,
        palette: "0,0,32,35,34"@,
        size: ""@,
        tokenize: ""@,
        match_regexp: "."@,
    }
}

/// Reading one more option.
pub open spec fn apply_option(o: OptionsView, a: Seq<char>) -> Result<OptionsView, SettingsError> {
    let n = opt_name(a);
    if a == "-h"@ || a == "--help"@ {
        Err(SettingsError::Help)
    } else if a == "-c"@ || a == "--color"@ {
        Ok(OptionsView { colourised: true, ..o })
    } else if a == "-g"@ || a == "--graph"@ {
        Ok(OptionsView { graph_values: PreTallied::ValueKey, ..o })
    } else if n == "-w"@ || n == "--width"@ || n == "-h"@ || n == "--height"@ || n == "-c"@ || n
        == "--char"@ || n == "-g"@ || n == "--graph"@ || n == "-p"@ || n == "--palette"@ || n
        == "-s"@ || n == "--size"@ || n == "-t"@ || n == "--tokenize"@ || n == "-m"@ || n
        == "--match"@ {
        match opt_value(a) {
            None => Err(SettingsError::MissingValue),
            Some(v) => if n == "-w"@ || n == "--width"@ {
                match usize_of(v) {
                    Some(w) => Ok(OptionsView { width_arg: w, ..o }),
                    None => Err(SettingsError::InvalidWidth),
                }
            } else if n == "-h"@ || n == "--height"@ {
                match usize_of(v) {
                    Some(h) => Ok(OptionsView { height_arg: h, ..o }),
                    None => Err(SettingsError::InvalidHeight),
                }
            } else if n == "-c"@ || n == "--char"@ {
                Ok(OptionsView { histogram_char: v, ..o })
            } else if n == "-g"@ || n == "--graph"@ {
                if v == "vk"@ {
                    Ok(OptionsView { graph_values: PreTallied::ValueKey, ..o })
                } else if v == "kv"@ {
                    Ok(OptionsView { graph_values: PreTallied::KeyValue, ..o })
                } else {
                    Err(SettingsError::InvalidGraph)
                }
            } else if n == "-p"@ || n == "--palette"@ {
                Ok(OptionsView { palette: v, colourised: true, ..o })
            } else if n == "-s"@ || n == "--size"@ {
                Ok(OptionsView { size: v, ..o })
            } else if n == "-t"@ || n == "--tokenize"@ {
                Ok(OptionsView { tokenize: v, ..o })
            } else {
                Ok(OptionsView { match_regexp: v, ..o })
            },
        }
    } else {
        Ok(o)
    }
}

/// Reading the options `opts` in order, stopping at the first error.
pub open spec fn apply_all(opts: Seq<Seq<char>>) -> Result<OptionsView, SettingsError>
    decreases opts.len(),
{
    if opts.len() == 0 {
        Ok(default_options())
    } else {
        match apply_all(opts.drop_last()) {
            Ok(o) => apply_option(o, opts.last()),
            Err(e) => Err(e),
        }
    }
}

/// Width and height of a named size.
pub open spec fn size_preset(size: Seq<char>) -> Option<(usize, usize)> {
    if size == "small"@ || size == "sm"@ || size == "s"@ {
        Some((60usize, 10usize))
    } else if size == "medium"@ || size == "med"@ || size == "m"@ {
        Some((100usize, 20usize))
    } else if size == "large"@ || size == "lg"@ || size == "l"@ {
        Some((140usize, 35usize))
    } else {
        None
    }
}

pub open spec fn final_width(o: OptionsView) -> usize {
    if o.width_arg != 0 {
        o.width_arg
    } else {
        match size_preset(o.size) {
            Some(p) => p.0,
            None => 80,
        }
    }
}

pub open spec fn final_height(o: OptionsView) -> usize {
    if o.height_arg != 0 {
        o.height_arg
    } else {
        match size_preset(o.size) {
            Some(p) => p.1,
            None => 15,
        }
    }
}

/// The escape sequence that selects the colour `code`.
pub open spec fn colour_code(code: Seq<char>) -> Seq<char> {
    "\u{1b}["@ + code + "m"@
}

/// The bar glyph once `dt` is replaced by a dot.
pub open spec fn final_char(o: OptionsView) -> Seq<char> {
    if o.histogram_char == "dt"@ {
        "\u{2022}"@
    } else {
        o.histogram_char
    }
}

/// The colour of palette entry `i`, or nothing without colour.
pub open spec fn colour_of(o: OptionsView, i: int) -> Seq<char> {
    if o.colourised {
        colour_code(split_n(o.palette, ',', 5)[i])
    } else {
        ""@
    }
}

/// `r` is the outcome of finishing the options `o`.
pub open spec fn finished(o: OptionsView, r: Result<Settings, SettingsError>) -> bool {
    if o.colourised && split_n(o.palette, ',', 5).len() < 5 {
        r == Err::<Settings, SettingsError>(SettingsError::InvalidPalette)
    } else if final_char(o).len() == 0 {
        r == Err::<Settings, SettingsError>(SettingsError::EmptyChar)
    } else {
        match r {
            Ok(s) => {
                &&& s.width == final_width(o)
                &&& s.height == final_height(o)
                &&& s.histogram_char@ == final_char(o)
                &&& s.partial_blocks == (o.histogram_char == "pb"@)
                &&& s.unicode_mode == (o.histogram_char == "dt"@ || (final_char(o)[0] as u32) >= 128)
                &&& s.graph_values == o.graph_values
                &&& s.tokenize@ == o.tokenize
                &&& s.match_regexp@ == o.match_regexp
                &&& s.regular_colour@ == colour_of(o, 0)
                &&& s.key_colour@ == colour_of(o, 1)
                &&& s.ct_colour@ == colour_of(o, 2)
                &&& s.pct_colour@ == colour_of(o, 3)
                &&& s.graph_colour@ == colour_of(o, 4)
            },
            Err(_) => false,
        }
    }
}

/// `r` is the outcome of reading the rc-file lines `rc` and then the
/// arguments `args`.
pub open spec fn settings_from(
    args: Seq<Seq<char>>,
    rc: Seq<Seq<char>>,
    r: Result<Settings, SettingsError>,
) -> bool {
    match apply_all(rc_options(rc) + args) {
        Ok(o) => finished(o, r),
        Err(e) => r == Err::<Settings, SettingsError>(e),
    }
}

proof fn lemma_apply_all_err(opts: Seq<Seq<char>>, k: int)
    requires
        0 <= k <= opts.len(),
        apply_all(opts.take(k)) is Err,
    ensures
        apply_all(opts) == apply_all(opts.take(k)),
    decreases opts.len() - k,
{
    if k == opts.len() {
        assert(opts.take(k) =~= opts);
    } else {
        assert(opts.take(k + 1).drop_last() =~= opts.take(k));
        lemma_apply_all_err(opts, k + 1);
    }
}

/// Index of the first `c` in `s`.
fn find_char_in(s: &str, c: char) -> (r: Option<usize>)
    ensures
        match r {
            Some(i) => find_char(s@, c) == Some(i as nat),
            None => find_char(s@, c) is None,
        },
{
    let n = char_count(s);
    let mut i: usize = 0;
    proof {
        lemma_find_char(s@, c);
    }
    while i < n
        invariant
            n == s@.len(),
            i <= n,
            forall|j: int| 0 <= j < i ==> s@[j] != c,
        decreases n - i,
    {
        if s.get_char(i) == c {
            proof {
                lemma_find_char(s@, c);
            }
            return Some(i);
        }
        i = i + 1;
    }
    None
}

/// `s` without its first `i + 1` characters.
fn after(s: &str, i: usize) -> (r: &str)
    requires
        i < s@.len(),
    ensures
        r@ == s@.skip(i + 1),
{
    let n = char_count(s);
    let r = s.substring_char(i + 1, n);
    assert(r@ =~= s@.skip(i + 1));
    r
}

/// The first `i` characters of `s`.
fn before(s: &str, i: usize) -> (r: &str)
    requires
        i <= s@.len(),
    ensures
        r@ == s@.take(i as int),
{
    let r = s.substring_char(0, i);
    assert(r@ =~= s@.take(i as int));
    r
}

/// Reads a size written in decimal, with an optional leading `+`.
fn parse_usize(s: &str) -> (r: Option<usize>)
    ensures
        r == usize_of(s@),
{
    let n = char_count(s);
    let digits: &str = if n > 0 && s.get_char(0) == '+' {
        let d = s.substring_char(1, n);
        assert(d@ =~= s@.drop_first());
        d
    } else {
        s
    };
    match parse_count(digits) {
        Some(v) => if v <= usize::MAX as u64 {
            Some(v as usize)
        } else {
            None
        },
        None => None,
    }
}

/// `s` split at `c`, into at most `n` pieces.
fn split_at_most(s: &str, c: char, n: usize) -> (r: Vec<String>)
    ensures
        texts(r@) == split_n(s@, c, n as nat),
    decreases n,
{
    let mut v: Vec<String> = Vec::new();
    if n <= 1 {
        v.push(s.to_owned());
        assert(texts(v@) =~= split_n(s@, c, n as nat));
        return v;
    }
    match find_char_in(s, c) {
        None => {
            v.push(s.to_owned());
            assert(texts(v@) =~= split_n(s@, c, n as nat));
            v
        },
        Some(i) => {
            proof {
                lemma_find_char(s@, c);
            }
            v.push(before(s, i).to_owned());
            let mut rest = split_at_most(after(s, i), c, n - 1);
            let ghost first = v@;
            let ghost tail = rest@;
            v.append(&mut rest);
            assert(texts(v@) =~= texts(first) + texts(tail));
            assert(texts(v@) =~= split_n(s@, c, n as nat));
            v
        },
    }
}

/// An rc-file line without its comment.
fn strip_comment_of(l: &str) -> (r: String)
    ensures
        r@ == strip_comment(l@),
{
    match find_char_in(l, '#') {
        Some(i) => {
            proof {
                lemma_find_char(l@, '#');
            }
            before(l, i).to_owned()
        },
        None => l.to_owned(),
    }
}

/// The options of rc-file lines, last line first.
pub fn rc_options_of(lines: &Vec<String>) -> (r: Vec<String>)
    ensures
        texts(r@) == rc_options(texts(lines@)),
{
    let ghost ls = texts(lines@);
    let mut r: Vec<String> = Vec::new();
    let mut i: usize = 0;
    while i < lines.len()
        invariant
            ls == texts(lines@),
            i <= lines@.len(),
            texts(r@) == rc_options(ls.take(i as int)),
        decreases lines@.len() - i,
    {
        assert(ls.take(i + 1).drop_last() =~= ls.take(i as int));
        let opt = strip_comment_of(lines[i].as_str());
        let ghost old_r = texts(r@);
        if char_count(opt.as_str()) > 0 {
            r.insert(0, opt);
            assert(texts(r@) =~= seq![strip_comment(ls[i as int])] + old_r);
        }
        i = i + 1;
    }
    assert(ls.take(lines@.len() as int) =~= ls);
    r
}

/// The options read so far.
struct Options {
    width_arg: usize,
    height_arg: usize,
    histogram_char: String,
    colourised: bool,
    graph_values: PreTallied,
    palette: String,
    size: String,
    tokenize: String,
    match_regexp: String,
}

impl View for Options {
    type V = OptionsView;

    closed spec fn view(&self) -> OptionsView {
        OptionsView {
            width_arg: self.width_arg,
            height_arg: self.height_arg,
            histogram_char: self.histogram_char@,
            colourised: self.colourised,
            graph_values: self.graph_values,
            palette: self.palette@,
            size: self.size@,
            tokenize: self.tokenize@,
            match_regexp: self.match_regexp@,
        }
    }
}

spec fn view_result(r: Result<Options, SettingsError>) -> Result<OptionsView, SettingsError> {
    match r {
        Ok(o) => Ok(o@),
        Err(e) => Err(e),
    }
}

/// The escape sequence that selects the colour `code`.
fn colour(code: &str) -> (r: String)
    ensures
        r@ == colour_code(code@),
{
    let mut s = "\u{1b}[".to_owned();
    push_str(&mut s, code);
    push_str(&mut s, "m");
    s
}

impl Options {
    fn new() -> (r: Options)
        ensures
            r@ == default_options(),
    {
        Options {
            width_arg: 0,
            height_arg: 0,
            histogram_char: "-".to_owned(),
            colourised: false,
            graph_values: PreTallied::NA,
            palette: "0,0,32,35,34".to_owned(),
            size: "".to_owned(),
            tokenize: "".to_owned(),
            match_regexp: ".".to_owned(),
        }
    }

    /// Reads one more option.
    fn apply(self, a: &str) -> (r: Result<Options, SettingsError>)
        ensures
            view_result(r) == apply_option(self@, a@),
    {
        if same_text(a, "-h") || same_text(a, "--help") {
            return Err(SettingsError::Help);
        }
        if same_text(a, "-c") || same_text(a, "--color") {
            return Ok(Options { colourised: true, ..self });
        }
        if same_text(a, "-g") || same_text(a, "--graph") {
            return Ok(Options { graph_values: PreTallied::ValueKey, ..self });
        }
        let eq = find_char_in(a, '=');
        proof {
            lemma_find_char(a@, '=');
        }
        let name: &str = match eq {
            Some(i) => before(a, i),
            None => a,
        };
        let is_width = same_text(name, "-w") || same_text(name, "--width");
        let is_height = same_text(name, "-h") || same_text(name, "--height");
        let is_char = same_text(name, "-c") || same_text(name, "--char");
        let is_graph = same_text(name, "-g") || same_text(name, "--graph");
        let is_palette = same_text(name, "-p") || same_text(name, "--palette");
        let is_size = same_text(name, "-s") || same_text(name, "--size");
        let is_tokenize = same_text(name, "-t") || same_text(name, "--tokenize");
        let is_match = same_text(name, "-m") || same_text(name, "--match");
        if !(is_width || is_height || is_char || is_graph || is_palette || is_size || is_tokenize
            || is_match) {
            return Ok(self);
        }
        let value: &str = match eq {
            Some(i) => after(a, i),
            None => {
                return Err(SettingsError::MissingValue);
            },
        };
        if is_width {
            match parse_usize(value) {
                Some(w) => Ok(Options { width_arg: w, ..self }),
                None => Err(SettingsError::InvalidWidth),
            }
        } else if is_height {
            match parse_usize(value) {
                Some(h) => Ok(Options { height_arg: h, ..self }),
                None => Err(SettingsError::InvalidHeight),
            }
        } else if is_char {
            Ok(Options { histogram_char: value.to_owned(), ..self })
        } else if is_graph {
            if same_text(value, "vk") {
                Ok(Options { graph_values: PreTallied::ValueKey, ..self })
            } else if same_text(value, "kv") {
                Ok(Options { graph_values: PreTallied::KeyValue, ..self })
            } else {
                Err(SettingsError::InvalidGraph)
            }
        } else if is_palette {
            Ok(Options { palette: value.to_owned(), colourised: true, ..self })
        } else if is_size {
            Ok(Options { size: value.to_owned(), ..self })
        } else if is_tokenize {
            Ok(Options { tokenize: value.to_owned(), ..self })
        } else {
            Ok(Options { match_regexp: value.to_owned(), ..self })
        }
    }
}

/// Width and height of a named size.
fn size_of(size: &str) -> (r: Option<(usize, usize)>)
    ensures
        r == size_preset(size@),
{
    if same_text(size, "small") || same_text(size, "sm") || same_text(size, "s") {
        Some((60, 10))
    } else if same_text(size, "medium") || same_text(size, "med") || same_text(size, "m") {
        Some((100, 20))
    } else if same_text(size, "large") || same_text(size, "lg") || same_text(size, "l") {
        Some((140, 35))
    } else {
        None
    }
}

impl Options {
    /// The settings that these options make.
    fn finish(self) -> (r: Result<Settings, SettingsError>)
        ensures
            finished(self@, r),
    {
        let ghost o = self@;
        let mut regular = "".to_owned();
        let mut key = "".to_owned();
        let mut ct = "".to_owned();
        let mut pct = "".to_owned();
        let mut graph = "".to_owned();
        if self.colourised {
            let parts = split_at_most(self.palette.as_str(), ',', 5);
            if parts.len() < 5 {
                return Err(SettingsError::InvalidPalette);
            }
            regular = colour(parts[0].as_str());
            key = colour(parts[1].as_str());
            ct = colour(parts[2].as_str());
            pct = colour(parts[3].as_str());
            graph = colour(parts[4].as_str());
        }
        let dt = same_text(self.histogram_char.as_str(), "dt");
        let pb = same_text(self.histogram_char.as_str(), "pb");
        let hc: String = if dt {
            "\u{2022}".to_owned()
        } else {
            self.histogram_char
        };
        if char_count(hc.as_str()) == 0 {
            return Err(SettingsError::EmptyChar);
        }
        let first = hc.as_str().get_char(0);
        let unicode = dt || (first as u32) >= 128;
        let width: usize = if self.width_arg != 0 {
            self.width_arg
        } else {
            match size_of(self.size.as_str()) {
                Some(p) => p.0,
                None => 80,
            }
        };
        let height: usize = if self.height_arg != 0 {
            self.height_arg
        } else {
            match size_of(self.size.as_str()) {
                Some(p) => p.1,
                None => 15,
            }
        };
        Ok(Settings {
            width,
            height,
            histogram_char: hc,
            unicode_mode: unicode,
            partial_blocks: pb,
            graph_values: self.graph_values,
            tokenize: self.tokenize,
            match_regexp: self.match_regexp,
            regular_colour: regular,
            key_colour: key,
            ct_colour: ct,
            pct_colour: pct,
            graph_colour: graph,
        })
    }
}

impl Settings {
    /// Reads the rc-file lines `rc_lines`, then the arguments `args` (the
    /// first of which names the program), into settings. Defaults: 80
    /// columns, 15 rows, bar glyph `-`, match pattern `.`, no colour.
    pub fn new(args: &Vec<String>, rc_lines: &Vec<String>) -> (r: Result<Settings, SettingsError>)
        ensures
            settings_from(texts(args@), texts(rc_lines@), r),
            r matches Ok(s) ==> s.wf(),
    {
        let rc = rc_options_of(rc_lines);
        let ghost all = texts(rc@) + texts(args@);
        let mut o = Options::new();
        let mut i: usize = 0;
        while i < rc.len()
            invariant
                all == texts(rc@) + texts(args@),
                texts(rc@) == rc_options(texts(rc_lines@)),
                i <= rc@.len(),
                apply_all(all.take(i as int)) == Ok::<OptionsView, SettingsError>(o@),
            decreases rc@.len() - i,
        {
            assert(all.take(i + 1).drop_last() =~= all.take(i as int));
            assert(all.take(i + 1).last() == rc@[i as int]@);
            match o.apply(rc[i].as_str()) {
                Ok(next) => {
                    o = next;
                },
                Err(e) => {
                    proof {
                        lemma_apply_all_err(all, i + 1);
                    }
                    return Err(e);
                },
            }
            i = i + 1;
        }
        let mut j: usize = 0;
        while j < args.len()
            invariant
                all == texts(rc@) + texts(args@),
                texts(rc@) == rc_options(texts(rc_lines@)),
                j <= args@.len(),
                apply_all(all.take((rc@.len() + j) as int)) == Ok::<OptionsView, SettingsError>(o@),
            decreases args@.len() - j,
        {
            let ghost k = (rc@.len() + j) as int;
            assert(all.take(k + 1).drop_last() =~= all.take(k));
            assert(all.take(k + 1).last() == args@[j as int]@);
            match o.apply(args[j].as_str()) {
                Ok(next) => {
                    o = next;
                },
                Err(e) => {
                    proof {
                        lemma_apply_all_err(all, k + 1);
                    }
                    return Err(e);
                },
            }
            j = j + 1;
        }
        assert(all.take((rc@.len() + args@.len()) as int) =~= all);
        o.finish()
    }

    /// The partial block glyphs, from one eighth to a full block, when bars
    /// are drawn in eighths; none otherwise.
    pub fn graph_chars(&self) -> (r: Vec<char>)
        ensures
            r@.len() == if self.partial_blocks { 8nat } else { 0nat },
            forall|i: int| 0 <= i < r@.len() ==> r@[i] == ladder(i as nat),
    {
        let mut v: Vec<char> = Vec::new();
        if self.partial_blocks {
            v.push('\u{258F}');
            v.push('\u{258E}');
            v.push('\u{258D}');
            v.push('\u{258C}');
            v.push('\u{258B}');
            v.push('\u{258A}');
            v.push('\u{2589}');
            v.push('\u{2588}');
        }
        v
    }
}

} // verus!
