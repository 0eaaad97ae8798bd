//! Tokenizers: from lines of text to pairs.
//!
//! A line tokenizer counts whole lines that match a filter; a regex
//! tokenizer splits lines into tokens and counts those that match; a
//! pre-tallied tokenizer reads a count and a key from every line and keeps
//! each pair as it comes, duplicates included.

use crate::pair::Pair;
use crate::pattern::{regex_compiles, regex_group, regex_matches, regex_split, Pattern};
use crate::rank::views;
use crate::settings::{PreTallied, Settings};
use crate::histogram::{report_body, shown_rows, sum_values};
use crate::tally::{count_in, count_keys, lemma_count_contains, lemma_tally_sum, tallies, texts};
use crate::text::{count_of, parse_count, same_text};
use vstd::prelude::*;

verus! {

/// What makes tokenizing fail.
#[derive(Debug, Clone, Copy, PartialEq, Eq, Structural)]
pub enum TokenizeError {
    /// A pattern does not compile.
    InvalidPattern,
    /// The line at this index (from zero) is not a count and a key.
    MalformedLine(usize),
}

/// The text with trailing whitespace removed.
pub uninterp spec fn trimmed_end(s: Seq<char>) -> Seq<char>;

/// Relies on str::trim_end: the text without its trailing whitespace,
/// which leaves a prefix of it.
#[verifier::external_body]
fn trim_end(s: &str) -> (r: &str)
    ensures
        r@ == trimmed_end(s@),
        r@.len() <= s@.len(),
        r@ == s@.take(r@.len() as int),
{
    s.trim_end()
}

/// The entries of `s` that the pattern matches, in order.
pub open spec fn matching(pattern: Seq<char>, s: Seq<Seq<char>>) -> Seq<Seq<char>>
    decreases s.len(),
{
    if s.len() == 0 {
        Seq::empty()
    } else if regex_matches(pattern, s.last()) {
        matching(pattern, s.drop_last()).push(s.last())
    } else {
        matching(pattern, s.drop_last())
    }
}

/// The tokens of one line that are counted: the pieces of the line, its
/// trailing whitespace removed, between matches of `splitter`, kept when
/// `matcher` matches them.
pub open spec fn line_tokens(splitter: Seq<char>, matcher: Seq<char>, line: Seq<char>) -> Seq<
    Seq<char>,
> {
    matching(matcher, regex_split(splitter, trimmed_end(line)))
}

/// The counted tokens of all lines, in order.
pub open spec fn all_tokens(splitter: Seq<char>, matcher: Seq<char>, lines: Seq<Seq<char>>) -> Seq<
    Seq<char>,
>
    decreases lines.len(),
{
    if lines.len() == 0 {
        Seq::empty()
    } else {
        all_tokens(splitter, matcher, lines.drop_last()) + line_tokens(
            splitter,
            matcher,
            lines.last(),
        )
    }
}

/// All pieces of all lines, trailing whitespace removed, between matches
/// of `splitter`: the tokens a regex tokenizer looks at.
pub open spec fn all_pieces(splitter: Seq<char>, lines: Seq<Seq<char>>) -> Seq<Seq<char>>
    decreases lines.len(),
{
    if lines.len() == 0 {
        Seq::empty()
    } else {
        all_pieces(splitter, lines.drop_last()) + regex_split(splitter, trimmed_end(lines.last()))
    }
}

/// Filtering keeps at most every entry, and all of them when all match.
pub proof fn lemma_matching_len(pattern: Seq<char>, s: Seq<Seq<char>>)
    ensures
        matching(pattern, s).len() <= s.len(),
        (forall|i: int| 0 <= i < s.len() ==> regex_matches(pattern, #[trigger] s[i])) ==> matching(
            pattern,
            s,
        ) == s,
    decreases s.len(),
{
    if s.len() > 0 {
        lemma_matching_len(pattern, s.drop_last());
        if forall|i: int| 0 <= i < s.len() ==> regex_matches(pattern, #[trigger] s[i]) {
            assert forall|i: int| 0 <= i < s.drop_last().len() implies regex_matches(
                pattern,
                #[trigger] s.drop_last()[i],
            ) by {
                assert(s.drop_last()[i] == s[i]);
            }
            assert(regex_matches(pattern, s[s.len() - 1]));
            assert(s.drop_last().push(s.last()) =~= s);
        }
    }
}

/// Filtering keeps every occurrence of a key that matches, and none of
/// one that does not.
pub proof fn lemma_matching_count(pattern: Seq<char>, s: Seq<Seq<char>>, k: Seq<char>)
    ensures
        count_in(matching(pattern, s), k) == if regex_matches(pattern, k) {
            count_in(s, k)
        } else {
            0
        },
    decreases s.len(),
{
    if s.len() > 0 {
        lemma_matching_count(pattern, s.drop_last(), k);
        let m = matching(pattern, s.drop_last());
        if regex_matches(pattern, s.last()) {
            assert(m.push(s.last()).drop_last() =~= m);
        }
    }
}

/// A line tokenizer's counts add up to at most the number of lines, and to
/// exactly that when every line passes the filter.
pub proof fn lemma_line_total(pattern: Seq<char>, lines: Seq<Seq<char>>, out: Seq<(u64, Seq<char>)>)
    requires
        tallies(matching(pattern, lines), out),
    ensures
        sum_values(out) <= lines.len(),
        (forall|i: int| 0 <= i < lines.len() ==> regex_matches(pattern, #[trigger] lines[i]))
            ==> sum_values(out) == lines.len(),
{
    lemma_tally_sum(matching(pattern, lines), out);
    lemma_matching_len(pattern, lines);
}

proof fn lemma_all_tokens_len(splitter: Seq<char>, matcher: Seq<char>, lines: Seq<Seq<char>>)
    ensures
        all_tokens(splitter, matcher, lines).len() <= all_pieces(splitter, lines).len(),
        (forall|i: int|
            0 <= i < all_pieces(splitter, lines).len() ==> regex_matches(
                matcher,
                #[trigger] all_pieces(splitter, lines)[i],
            )) ==> all_tokens(splitter, matcher, lines).len() == all_pieces(splitter, lines).len(),
    decreases lines.len(),
{
    if lines.len() > 0 {
        let d = lines.drop_last();
        let front = all_pieces(splitter, d);
        let back = regex_split(splitter, trimmed_end(lines.last()));
        let all = all_pieces(splitter, lines);
        lemma_all_tokens_len(splitter, matcher, d);
        lemma_matching_len(matcher, back);
        if forall|i: int| 0 <= i < all.len() ==> regex_matches(matcher, #[trigger] all[i]) {
            assert forall|i: int| 0 <= i < front.len() implies regex_matches(matcher, #[trigger] front[i]) by {
                assert(all[i] == front[i]);
            }
            assert forall|i: int| 0 <= i < back.len() implies regex_matches(matcher, #[trigger] back[i]) by {
                assert(all[front.len() + i] == back[i]);
            }
        }
    }
}

/// A regex tokenizer's counts add up to at most the number of pieces its
/// lines split into, and to exactly that when every piece matches.
pub proof fn lemma_token_total(
    splitter: Seq<char>,
    matcher: Seq<char>,
    lines: Seq<Seq<char>>,
    out: Seq<(u64, Seq<char>)>,
)
    requires
        tallies(all_tokens(splitter, matcher, lines), out),
    ensures
        sum_values(out) <= all_pieces(splitter, lines).len(),
        (forall|i: int|
            0 <= i < all_pieces(splitter, lines).len() ==> regex_matches(
                matcher,
                #[trigger] all_pieces(splitter, lines)[i],
            )) ==> sum_values(out) == all_pieces(splitter, lines).len(),
{
    lemma_tally_sum(all_tokens(splitter, matcher, lines), out);
    lemma_all_tokens_len(splitter, matcher, lines);
}

/// A line tokenizer counts a key exactly as often as it occurs among the
/// lines, and only when it passes the filter; every line that passes is
/// counted under some pair.
pub proof fn lemma_line_counts(pattern: Seq<char>, lines: Seq<Seq<char>>, out: Seq<(u64, Seq<char>)>)
    requires
        tallies(matching(pattern, lines), out),
    ensures
        forall|i: int|
            0 <= i < out.len() ==> regex_matches(pattern, #[trigger] out[i].1) && out[i].0 == count_in(
                lines,
                out[i].1,
            ),
        forall|x: Seq<char>|
            lines.contains(x) && regex_matches(pattern, x) ==> exists|i: int|
                0 <= i < out.len() && #[trigger] out[i].1 == x,
{
    let m = matching(pattern, lines);
    assert forall|i: int| 0 <= i < out.len() implies regex_matches(pattern, #[trigger] out[i].1)
        && out[i].0 == count_in(lines, out[i].1) by {
        lemma_matching_count(pattern, lines, out[i].1);
        lemma_count_contains(m, out[i].1);
    }
    assert forall|x: Seq<char>| lines.contains(x) && regex_matches(pattern, x) implies exists|i: int|
        0 <= i < out.len() && #[trigger] out[i].1 == x by {
        lemma_matching_count(pattern, lines, x);
        lemma_count_contains(m, x);
        lemma_count_contains(lines, x);
        assert(m.contains(x));
    }
}

/// The split pattern that a splitter option stands for: `white` splits on
/// runs of whitespace, `word` on any non-word character.
pub open spec fn splitter_source(s: Seq<char>) -> Seq<char> {
    if s == "white"@ {
        r"\s+"@
    } else if s == "word"@ {
        r"\W"@
    } else {
        s
    }
}

/// The match pattern that a matcher option stands for: `word` keeps
/// alphabetic tokens, `num` numeric ones.
pub open spec fn matcher_source(m: Seq<char>) -> Seq<char> {
    if m == "word"@ {
        r"^[A-Za-z]+$"@
    } else if m == "num"@ {
        r"^\d+$"@
    } else {
        m
    }
}

/// Line pattern of pre-tallied input, key first or count first.
pub open spec fn tally_pattern(key_first: bool) -> Seq<char> {
    if key_first {
        r"^\s*(?P<key>.+)\s+(?P<value>\d+)$"@
    } else {
        r"^\s*(?P<value>\d+)\s+(?P<key>.+)$"@
    }
}

/// The pair that a pre-tallied line holds, if it holds one.
pub open spec fn parse_line(pattern: Seq<char>, line: Seq<char>) -> Option<(u64, Seq<char>)> {
    match regex_group(pattern, line, "value"@) {
        Some(v) => match (count_of(v), regex_group(pattern, line, "key"@)) {
            (Some(n), Some(k)) => Some((n, k)),
            _ => None,
        },
        None => None,
    }
}

/// `r` is what reading the pre-tallied `lines` with `pattern` gives: every
/// line's pair in order, or the first line that holds none.
pub open spec fn tally_result(
    pattern: Seq<char>,
    lines: Seq<Seq<char>>,
    r: Result<Vec<Pair>, TokenizeError>,
) -> bool {
    match r {
        Ok(v) => {
            &&& regex_compiles(pattern)
            &&& views(v@).len() == lines.len()
            &&& forall|i: int| 0 <= i < lines.len() ==> parse_line(pattern, #[trigger] lines[i]) == Some(views(v@)[i])
        },
        Err(TokenizeError::InvalidPattern) => !regex_compiles(pattern),
        Err(TokenizeError::MalformedLine(i)) => {
            &&& regex_compiles(pattern)
            &&& i < lines.len()
            &&& parse_line(pattern, lines[i as int]) is None
            &&& forall|j: int| 0 <= j < i ==> parse_line(pattern, #[trigger] lines[j]) is Some
        },
    }
}

/// Counts whole lines that match a filter.
pub struct LineTokenizer {
    re: Pattern,
}

impl View for LineTokenizer {
    type V = Seq<char>;

    /// The filter pattern.
    closed spec fn view(&self) -> Seq<char> {
        self.re@
    }
}

impl LineTokenizer {
    pub fn new(matcher: &str) -> (r: Result<LineTokenizer, TokenizeError>)
        ensures
            match r {
                Ok(t) => regex_compiles(matcher@) && t@ == matcher@,
                Err(e) => !regex_compiles(matcher@) && e == TokenizeError::InvalidPattern,
            },
    {
        match Pattern::compile(matcher) {
            Ok(re) => Ok(LineTokenizer { re }),
            Err(_) => Err(TokenizeError::InvalidPattern),
        }
    }

    /// One pair per distinct matching line, with how many times it occurs.
    pub fn tokenize(&self, lines: &Vec<String>) -> (r: Vec<Pair>)
        ensures
            tallies(matching(self@, texts(lines@)), views(r@)),
    {
        let ghost ls = texts(lines@);
        let mut keys: Vec<String> = Vec::new();
        let mut i: usize = 0;
        while i < lines.len()
            invariant
                ls == texts(lines@),
                i <= lines@.len(),
                texts(keys@) == matching(self@, ls.take(i as int)),
            decreases lines@.len() - i,
        {
            assert(ls.take(i + 1).drop_last() =~= ls.take(i as int));
            if self.re.is_match(lines[i].as_str()) {
                keys.push(lines[i].clone());
            }
            assert(texts(keys@) =~= matching(self@, ls.take(i + 1)));
            i = i + 1;
        }
        assert(ls.take(lines@.len() as int) =~= ls);
        count_keys(&keys)
    }
}

/// Splits lines into tokens and counts the tokens that match.
pub struct RegexTokenizer {
    splitter: Pattern,
    matcher: Pattern,
}

impl View for RegexTokenizer {
    type V = (Seq<char>, Seq<char>);

    /// The split pattern and the match pattern.
    closed spec fn view(&self) -> (Seq<char>, Seq<char>) {
        (self.splitter@, self.matcher@)
    }
}

impl RegexTokenizer {
    pub fn new(splitter: &str, matcher: &str) -> (r: Result<RegexTokenizer, TokenizeError>)
        ensures
            match r {
                Ok(t) => {
                    &&& regex_compiles(splitter_source(splitter@))
                    &&& regex_compiles(matcher_source(matcher@))
                    &&& t@ == (splitter_source(splitter@), matcher_source(matcher@))
                },
                Err(e) => {
                    &&& !(regex_compiles(splitter_source(splitter@)) && regex_compiles(
                        matcher_source(matcher@),
                    ))
                    &&& e == TokenizeError::InvalidPattern
                },
            },
    {
        let split_src: &str = if same_text(splitter, "white") {
            r"\s+"
        } else if same_text(splitter, "word") {
            r"\W"
        } else {
            splitter
        };
        let match_src: &str = if same_text(matcher, "word") {
            r"^[A-Za-z]+$"
        } else if same_text(matcher, "num") {
            r"^\d+$"
        } else {
            matcher
        };
        let splitter_re = match Pattern::compile(split_src) {
            Ok(re) => re,
            Err(_) => {
                return Err(TokenizeError::InvalidPattern);
            },
        };
        let matcher_re = match Pattern::compile(match_src) {
            Ok(re) => re,
            Err(_) => {
                return Err(TokenizeError::InvalidPattern);
            },
        };
        Ok(RegexTokenizer { splitter: splitter_re, matcher: matcher_re })
    }

    /// One pair per distinct counted token, with how many times it occurs.
    pub fn tokenize(&self, lines: &Vec<String>) -> (r: Vec<Pair>)
        ensures
            tallies(all_tokens(self@.0, self@.1, texts(lines@)), views(r@)),
    {
        let ghost ls = texts(lines@);
        let mut keys: Vec<String> = Vec::new();
        let mut i: usize = 0;
        while i < lines.len()
            invariant
                ls == texts(lines@),
                i <= lines@.len(),
                texts(keys@) == all_tokens(self@.0, self@.1, ls.take(i as int)),
            decreases lines@.len() - i,
        {
            assert(ls.take(i + 1).drop_last() =~= ls.take(i as int));
            let line = trim_end(lines[i].as_str());
            let pieces = self.splitter.split(line);
            let ghost ps = texts(pieces@);
            let ghost start = texts(keys@);
            let mut j: usize = 0;
            while j < pieces.len()
                invariant
                    ps == texts(pieces@),
                    j <= pieces@.len(),
                    texts(keys@) == start + matching(self@.1, ps.take(j as int)),
                decreases pieces@.len() - j,
            {
                assert(ps.take(j + 1).drop_last() =~= ps.take(j as int));
                assert(ps.take(j + 1).last() == pieces@[j as int]@);
                let ghost before = texts(keys@);
                if self.matcher.is_match(pieces[j].as_str()) {
                    keys.push(pieces[j].clone());
                    assert(texts(keys@) =~= before.push(pieces@[j as int]@));
                } else {
                    assert(texts(keys@) =~= before);
                }
                assert(texts(keys@) =~= start + matching(self@.1, ps.take(j + 1)));
                j = j + 1;
            }
            assert(ps.take(pieces@.len() as int) =~= ps);
            assert(texts(keys@) =~= all_tokens(self@.0, self@.1, ls.take(i + 1)));
            i = i + 1;
        }
        assert(ls.take(lines@.len() as int) =~= ls);
        count_keys(&keys)
    }
}

/// Reads a count and a key from every line, key first or count first.
pub struct PreTalliedTokenizer {
    key_first: bool,
}

impl View for PreTalliedTokenizer {
    type V = bool;

    /// Whether the key comes before the count.
    closed spec fn view(&self) -> bool {
        self.key_first
    }
}

impl PreTalliedTokenizer {
    /// Lines of the form `key count`.
    pub fn key_value_tokenizer() -> (r: PreTalliedTokenizer)
        ensures
            r@,
    {
        PreTalliedTokenizer { key_first: true }
    }

    /// Lines of the form `count key`.
    pub fn value_key_tokenizer() -> (r: PreTalliedTokenizer)
        ensures
            !r@,
    {
        PreTalliedTokenizer { key_first: false }
    }

    /// The pair of every line, in order and unmerged; or the first line
    /// that holds none.
    pub fn tokenize(&self, lines: &Vec<String>) -> (r: Result<Vec<Pair>, TokenizeError>)
        ensures
            tally_result(tally_pattern(self@), texts(lines@), r),
    {
        let source: &str = if self.key_first {
            r"^\s*(?P<key>.+)\s+(?P<value>\d+)$"
        } else {
            r"^\s*(?P<value>\d+)\s+(?P<key>.+)$"
        };
        let re = match Pattern::compile(source) {
            Ok(re) => re,
            Err(_) => {
                return Err(TokenizeError::InvalidPattern);
            },
        };
        let ghost p = tally_pattern(self@);
        let ghost ls = texts(lines@);
        let mut out: Vec<Pair> = Vec::new();
        let mut i: usize = 0;
        while i < lines.len()
            invariant
                re@ == p,
                p == tally_pattern(self@),
                regex_compiles(p),
                ls == texts(lines@),
                i <= lines@.len(),
                views(out@).len() == i,
                forall|j: int| 0 <= j < i ==> parse_line(p, #[trigger] ls[j]) == Some(views(out@)[j]),
            decreases lines@.len() - i,
        {
            let line = lines[i].as_str();
            let parsed = match re.group(line, "value") {
                Some(v) => match (parse_count(v.as_str()), re.group(line, "key")) {
                    (Some(n), Some(k)) => Some(Pair::new(n, k.as_str())),
                    _ => None,
                },
                None => None,
            };
            match parsed {
                Some(pair) => {
                    out.push(pair);
                },
                None => {
                    proof {
                        assert forall|j: int| 0 <= j < i implies parse_line(p, #[trigger] ls[j]) is Some by {
                            assert(parse_line(p, ls[j]) == Some(views(out@)[j]));
                        }
                    }
                    return Err(TokenizeError::MalformedLine(i));
                },
            }
            i = i + 1;
        }
        Ok(out)
    }
}

/// The three ways of turning lines into pairs.
pub enum Tokenizer {
    Lines(LineTokenizer),
    Tokens(RegexTokenizer),
    PreTallied(PreTalliedTokenizer),
}

impl Tokenizer {
    /// The tokenizer that the settings ask for: pre-tallied input first,
    /// then a split pattern, else whole lines that match the match pattern.
    pub fn from_settings(s: &Settings) -> (r: Result<Tokenizer, TokenizeError>)
        ensures
            s.graph_values == PreTallied::ValueKey ==> (r matches Ok(Tokenizer::PreTallied(t)) && !t@),
            s.graph_values == PreTallied::KeyValue ==> (r matches Ok(Tokenizer::PreTallied(t)) && t@),
            s.graph_values == PreTallied::NA && s.tokenize@.len() > 0 ==> match r {
                Ok(Tokenizer::Tokens(t)) => {
                    &&& regex_compiles(splitter_source(s.tokenize@))
                    &&& regex_compiles(matcher_source(s.match_regexp@))
                    &&& t@ == (splitter_source(s.tokenize@), matcher_source(s.match_regexp@))
                },
                Err(e) => {
                    &&& !(regex_compiles(splitter_source(s.tokenize@)) && regex_compiles(
                        matcher_source(s.match_regexp@),
                    ))
                    &&& e == TokenizeError::InvalidPattern
                },
                _ => false,
            },
            s.graph_values == PreTallied::NA && s.tokenize@.len() == 0 ==> match r {
                Ok(Tokenizer::Lines(t)) => regex_compiles(s.match_regexp@) && t@ == s.match_regexp@,
                Err(e) => !regex_compiles(s.match_regexp@) && e == TokenizeError::InvalidPattern,
                _ => false,
            },
    {
        match s.graph_values {
            PreTallied::ValueKey => Ok(Tokenizer::PreTallied(PreTalliedTokenizer::value_key_tokenizer())),
            PreTallied::KeyValue => Ok(Tokenizer::PreTallied(PreTalliedTokenizer::key_value_tokenizer())),
            PreTallied::NA => {
                if s.tokenize.as_str().is_empty() {
                    match LineTokenizer::new(s.match_regexp.as_str()) {
                        Ok(t) => Ok(Tokenizer::Lines(t)),
                        Err(e) => Err(e),
                    }
                } else {
                    match RegexTokenizer::new(s.tokenize.as_str(), s.match_regexp.as_str()) {
                        Ok(t) => Ok(Tokenizer::Tokens(t)),
                        Err(e) => Err(e),
                    }
                }
            },
        }
    }

    /// Tokenizes with whichever tokenizer this is.
    pub fn tokenize(&self, lines: &Vec<String>) -> (r: Result<Vec<Pair>, TokenizeError>)
        ensures
            match self {
                Tokenizer::Lines(t) => r is Ok && tallies(matching(t@, texts(lines@)), views(r->Ok_0@)),
                Tokenizer::Tokens(t) => r is Ok && tallies(all_tokens(t@.0, t@.1, texts(lines@)), views(r->Ok_0@)),
                Tokenizer::PreTallied(t) => tally_result(tally_pattern(t@), texts(lines@), r),
            },
    {
        match self {
            Tokenizer::Lines(t) => Ok(t.tokenize(lines)),
            Tokenizer::Tokens(t) => Ok(t.tokenize(lines)),
            Tokenizer::PreTallied(t) => t.tokenize(lines),
        }
    }
}

/// Empty input gives no pairs, whichever tokenizer reads it, and the
/// report on no pairs has no rows.
pub proof fn lemma_empty_input(
    pattern: Seq<char>,
    splitter: Seq<char>,
    matcher: Seq<char>,
    key_first: bool,
    out: Seq<(u64, Seq<char>)>,
    r: Result<Vec<Pair>, TokenizeError>,
    st: Settings,
    width: nat,
    height: nat,
)
    ensures
        tallies(matching(pattern, Seq::empty()), out) ==> out.len() == 0,
        tallies(all_tokens(splitter, matcher, Seq::empty()), out) ==> out.len() == 0,
        tally_result(tally_pattern(key_first), Seq::empty(), r) && r is Ok ==> r->Ok_0@.len() == 0,
        report_body(st, width, Seq::empty(), shown_rows(height, 0)) == Seq::<char>::empty(),
{
    if out.len() > 0 {
        assert(!Seq::<Seq<char>>::empty().contains(out[0].1));
    }
}

} // verus!
