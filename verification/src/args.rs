//! Command line values after parsing: which output goes where.

use vstd::prelude::*;
use vstd::string::*;

verus! {

/// Where a line of output comes from.
#[derive(Clone, Copy, Debug, PartialEq, Eq, Structural)]
pub enum OutputSource {
    BotA,
    BotB,
    Gamelog,
}

/// Sources that are written to one file.
#[derive(Clone, Debug, PartialEq, Eq)]
pub struct OutputMapping {
    pub sources: Vec<OutputSource>,
    pub path: String,
}

/// A line of output with its source.
pub struct Message {
    pub msg: String,
    pub source: OutputSource,
}

/// The values of the command line.
#[derive(Clone)]
pub struct ArgConfig {
    /// Path of team A's bot.
    pub bot_a: String,
    /// Path of team B's bot.
    pub bot_b: String,
    /// Sources that are printed.
    pub print: Option<Vec<OutputSource>>,
    /// Sources that are written to files.
    pub output: Option<Vec<OutputMapping>>,
}

impl OutputSource {
    pub open spec fn spec_index(self) -> usize {
        match self {
            OutputSource::BotA => 0,
            OutputSource::BotB => 1,
            OutputSource::Gamelog => 2,
        }
    }

    /// Position of the source in tables that hold one entry for each source.
    #[verifier::when_used_as_spec(spec_index)]
    pub fn index(self) -> (r: usize)
        ensures
            r == self.spec_index(),
            r < 3,
    {
        match self {
            OutputSource::BotA => 0,
            OutputSource::BotB => 1,
            OutputSource::Gamelog => 2,
        }
    }
}

/// The source that a letter names.
pub open spec fn source_of_letter(c: char) -> Option<OutputSource> {
    if c == 'a' || c == 'A' {
        Some(OutputSource::BotA)
    } else if c == 'b' || c == 'B' {
        Some(OutputSource::BotB)
    } else if c == 'g' || c == 'G' {
        Some(OutputSource::Gamelog)
    } else {
        None
    }
}

/// The source that a word names: a word of one letter that names one.
pub open spec fn source_of(s: Seq<char>) -> Option<OutputSource> {
    if s.len() == 1 {
        source_of_letter(s[0])
    } else {
        None
    }
}

/// The message for a word that names no source.
pub open spec fn invalid_source(s: Seq<char>) -> Seq<char> {
    "Invalid source '"@ + s + "'"@
}

/// The message for a mapping without a colon.
pub open spec fn invalid_mapping(s: Seq<char>) -> Seq<char> {
    "Invalid format for output mapping '"@ + s + "'. Use -o a,b:foo.txt"@
}

/// Where the word begins that is open after the first `i` characters: behind the last
/// comma among them, or at the start.
pub open spec fn word_start(s: Seq<char>, i: int) -> int
    decreases i,
{
    if i <= 0 {
        0
    } else if s[i - 1] == ',' {
        i
    } else {
        word_start(s, i - 1)
    }
}

/// The sources named by the words that a comma has closed among the first `i` characters,
/// or the first of these words that names none.
pub open spec fn closed_words(s: Seq<char>, i: int) -> Result<Seq<OutputSource>, Seq<char>>
    decreases i,
{
    if i <= 0 {
        Ok(Seq::empty())
    } else if s[i - 1] == ',' {
        add_word(closed_words(s, i - 1), s.subrange(word_start(s, i - 1), i - 1))
    } else {
        closed_words(s, i - 1)
    }
}

/// Adds the source that `word` names to the sources found so far; the first word that
/// names none is kept instead.
pub open spec fn add_word(found: Result<Seq<OutputSource>, Seq<char>>, word: Seq<char>) -> Result<
    Seq<OutputSource>,
    Seq<char>,
> {
    match found {
        Err(bad) => Err(bad),
        Ok(sources) => match source_of(word) {
            Some(source) => Ok(sources.push(source)),
            None => Err(word),
        },
    }
}

/// The sources that a list names, word by word between the commas, or the first word that
/// names none. An empty list holds one empty word.
pub open spec fn sources_of(s: Seq<char>) -> Result<Seq<OutputSource>, Seq<char>> {
    add_word(closed_words(s, s.len() as int), s.subrange(word_start(s, s.len() as int), s.len() as int))
}

/// Whether the first colon of `s` stands at `i`.
pub open spec fn first_colon(s: Seq<char>, i: int) -> bool {
    &&& 0 <= i < s.len()
    &&& s[i] == ':'
    &&& forall|j: int| 0 <= j < i ==> s[j] != ':'
}

/// Reads one source: `a`, `b` or `g`, in either case.
pub fn parse_source(s: &str) -> (r: Result<OutputSource, String>)
    ensures
        match r {
            Ok(source) => source_of(s@) == Some(source),
            Err(msg) => source_of(s@).is_none() && msg@ == invalid_source(s@),
        },
{
    if s.unicode_len() == 1 {
        let c = s.get_char(0);
        if c == 'a' || c == 'A' {
            return Ok(OutputSource::BotA);
        }
        if c == 'b' || c == 'B' {
            return Ok(OutputSource::BotB);
        }
        if c == 'g' || c == 'G' {
            return Ok(OutputSource::Gamelog);
        }
    }
    let mut msg = String::from_str("Invalid source '");
    msg.append(s);
    msg.append("'");
    Err(msg)
}

/// Reads a list of sources that commas separate.
pub fn parse_sources(s: &str) -> (r: Result<Vec<OutputSource>, String>)
    ensures
        match r {
            Ok(sources) => sources_of(s@) == Ok::<Seq<OutputSource>, Seq<char>>(sources@),
            Err(msg) => match sources_of(s@) {
                Ok(_) => false,
                Err(bad) => msg@ == invalid_source(bad),
            },
        },
{
    let n = s.unicode_len();
    let mut sources: Vec<OutputSource> = Vec::new();
    let mut start: usize = 0;
    let mut i: usize = 0;
    while i < n
        invariant
            n == s@.len(),
            0 <= start <= i <= n,
            start == word_start(s@, i as int),
            closed_words(s@, i as int) == Ok::<Seq<OutputSource>, Seq<char>>(sources@),
        decreases n - i,
    {
        if s.get_char(i) == ',' {
            let word = s.substring_char(start, i);
            match parse_source(word) {
                Ok(source) => {
                    sources.push(source);
                },
                Err(msg) => {
                    proof {
                        lemma_error_stays(s@, i + 1, n as int);
                    }
                    return Err(msg);
                },
            }
            start = i + 1;
        }
        i += 1;
    }
    let word = s.substring_char(start, n);
    match parse_source(word) {
        Ok(source) => {
            sources.push(source);
            Ok(sources)
        },
        Err(msg) => Err(msg),
    }
}

/// Once a word that names no source has been closed, it stays the result.
proof fn lemma_error_stays(s: Seq<char>, i: int, n: int)
    requires
        0 <= i <= n <= s.len(),
        closed_words(s, i) is Err,
    ensures
        closed_words(s, n) == closed_words(s, i),
        n == s.len() ==> sources_of(s) == closed_words(s, i),
    decreases n - i,
{
    if i < n {
        lemma_error_stays(s, i, n - 1);
    }
}

/// Reads a mapping: a list of sources, a colon, and the path of a file.
pub fn parse_output_mappings(s: &str) -> (r: Result<OutputMapping, String>)
    ensures
        (forall|j: int| 0 <= j < s@.len() ==> s@[j] != ':') ==> (match r {
            Ok(_) => false,
            Err(msg) => msg@ == invalid_mapping(s@),
        }),
        forall|i: int| #[trigger]
            first_colon(s@, i) ==> (match r {
                Ok(mapping) => sources_of(s@.subrange(0, i)) == Ok::<
                    Seq<OutputSource>,
                    Seq<char>,
                >(mapping.sources@) && mapping.path@ == s@.subrange(i + 1, s@.len() as int),
                Err(msg) => match sources_of(s@.subrange(0, i)) {
                    Ok(_) => false,
                    Err(bad) => msg@ == invalid_source(bad),
                },
            }),
{
    let n = s.unicode_len();
    let mut i: usize = 0;
    while i < n
        invariant
            n == s@.len(),
            i <= n,
            forall|j: int| 0 <= j < i ==> s@[j] != ':',
        decreases n - i,
    {
        if s.get_char(i) == ':' {
            assert(first_colon(s@, i as int));
            let sources = parse_sources(s.substring_char(0, i))?;
            let path = String::from_str(s.substring_char(i + 1, n));
            return Ok(OutputMapping { sources, path });
        }
        i += 1;
    }
    let mut msg = String::from_str("Invalid format for output mapping '");
    msg.append(s);
    msg.append("'. Use -o a,b:foo.txt");
    Err(msg)
}

/// Completes the values of the command line: where neither a print list nor an output
/// mapping was given, every source is printed.
pub fn parse_cli(cli: ArgConfig) -> (r: ArgConfig)
    ensures
        r.bot_a == cli.bot_a,
        r.bot_b == cli.bot_b,
        r.output == cli.output,
        cli.print.is_some() || cli.output.is_some() ==> r.print == cli.print,
        cli.print.is_none() && cli.output.is_none() ==> r.print.is_some() && r.print.unwrap()@
            == seq![OutputSource::BotA, OutputSource::BotB, OutputSource::Gamelog],
{
    let mut cli = cli;
    if cli.print.is_none() && cli.output.is_none() {
        let mut all: Vec<OutputSource> = Vec::new();
        all.push(OutputSource::BotA);
        all.push(OutputSource::BotB);
        all.push(OutputSource::Gamelog);
        cli.print = Some(all);
    }
    cli
}

/// The letter of word number `k` in a list of one-letter words.
pub open spec fn letter_at(s: Seq<char>, k: int) -> char {
    s[2 * k]
}

/// The character behind word number `k` in a list of one-letter words.
pub open spec fn behind(s: Seq<char>, k: int) -> char {
    s[2 * k + 1]
}

/// Whether `s` spells the sources `found`: one letter for each, with a comma between
/// neighbours and nothing else.
pub open spec fn spells(s: Seq<char>, found: Seq<OutputSource>) -> bool {
    &&& found.len() >= 1
    &&& s.len() == 2 * found.len() - 1
    &&& forall|k: int|
        0 <= k < found.len() ==> source_of_letter(#[trigger] letter_at(s, k)) == Some(found[k])
    &&& forall|k: int| 0 <= k < found.len() - 1 ==> #[trigger] behind(s, k) == ','
}

/// The words that have been closed without fault are one-letter words, each followed by
/// its comma, and the open word begins right behind them.
proof fn lemma_closed_shape(s: Seq<char>, i: int)
    requires
        0 <= i <= s.len(),
        closed_words(s, i) is Ok,
    ensures
        ({
            let found = closed_words(s, i)->Ok_0;
            &&& word_start(s, i) == 2 * found.len()
            &&& 2 * found.len() <= i
            &&& forall|j: int| word_start(s, i) <= j < i ==> s[j] != ','
            &&& forall|k: int|
                0 <= k < found.len() ==> source_of_letter(#[trigger] letter_at(s, k)) == Some(
                    found[k],
                )
            &&& forall|k: int| 0 <= k < found.len() ==> #[trigger] behind(s, k) == ','
        }),
    decreases i,
{
    if i > 0 {
        if s[i - 1] == ',' {
            let before = closed_words(s, i - 1);
            let word = s.subrange(word_start(s, i - 1), i - 1);
            assert(before is Ok);
            lemma_closed_shape(s, i - 1);
            let found = before->Ok_0;
            assert(source_of(word) is Some);
            assert(word.len() == 1);
            assert(word[0] == s[word_start(s, i - 1)]);
            let grown = closed_words(s, i)->Ok_0;
            assert(grown == found.push(source_of(word)->Some_0));
            assert forall|k: int| 0 <= k < grown.len() implies source_of_letter(
                #[trigger] letter_at(s, k),
            ) == Some(grown[k]) by {
                if k < found.len() {
                    assert(source_of_letter(letter_at(s, k)) == Some(found[k]));
                }
            }
            assert forall|k: int| 0 <= k < grown.len() implies #[trigger] behind(s, k) == ',' by {
                if k < found.len() {
                    assert(behind(s, k) == ',');
                }
            }
        } else {
            lemma_closed_shape(s, i - 1);
        }
    }
}

/// In a list that spells `found`, the words closed within the first `i` characters are
/// the first `i / 2` of them.
proof fn lemma_spelled_prefix(s: Seq<char>, found: Seq<OutputSource>, i: int)
    requires
        spells(s, found),
        0 <= i <= s.len(),
    ensures
        closed_words(s, i) == Ok::<Seq<OutputSource>, Seq<char>>(found.take(i / 2)),
        word_start(s, i) == 2 * (i / 2),
    decreases i,
{
    if i > 0 {
        lemma_spelled_prefix(s, found, i - 1);
        let m = (i - 1) / 2;
        if (i - 1) % 2 == 1 {
            assert(behind(s, m) == ',');
            assert(s[i - 1] == ',');
            let word = s.subrange(2 * m, i - 1);
            assert(word.len() == 1);
            assert(word[0] == letter_at(s, m));
            assert(source_of_letter(letter_at(s, m)) == Some(found[m]));
            assert(found.take(m).push(found[m]) =~= found.take(m + 1));
        } else {
            assert(s[i - 1] == letter_at(s, m));
            assert(source_of_letter(letter_at(s, m)) == Some(found[m]));
            assert(found.take(i / 2) =~= found.take((i - 1) / 2));
        }
    } else {
        assert(found.take(0) =~= Seq::<OutputSource>::empty());
    }
}

/// A list names sources exactly when it spells them: letters that name a source, with a
/// comma between neighbours and nothing else. The sources are then those of the letters,
/// in order.
pub proof fn lemma_sources_spelled(s: Seq<char>, found: Seq<OutputSource>)
    ensures
        sources_of(s) == Ok::<Seq<OutputSource>, Seq<char>>(found) <==> spells(s, found),
{
    let n = s.len() as int;
    if sources_of(s) == Ok::<Seq<OutputSource>, Seq<char>>(found) {
        assert(closed_words(s, n) is Ok);
        lemma_closed_shape(s, n);
        let closed = closed_words(s, n)->Ok_0;
        let word = s.subrange(word_start(s, n), n);
        assert(source_of(word) is Some);
        assert(word.len() == 1);
        assert(word[0] == letter_at(s, closed.len() as int));
        assert(found == closed.push(source_of(word)->Some_0));
        assert forall|k: int| 0 <= k < found.len() implies source_of_letter(
            #[trigger] letter_at(s, k),
        ) == Some(found[k]) by {
            if k < closed.len() {
                assert(source_of_letter(letter_at(s, k)) == Some(closed[k]));
            }
        }
        assert forall|k: int| 0 <= k < found.len() - 1 implies #[trigger] behind(s, k) == ',' by {
            assert(k < closed.len());
        }
        assert(spells(s, found));
    }
    if spells(s, found) {
        lemma_spelled_prefix(s, found, n);
        let m = found.len() - 1;
        assert(n / 2 == m);
        let word = s.subrange(2 * m, n);
        assert(word.len() == 1);
        assert(word[0] == letter_at(s, m));
        assert(source_of_letter(letter_at(s, m)) == Some(found[m]));
        assert(found.take(m).push(found[m]) =~= found);
    }
}

} // verus!
