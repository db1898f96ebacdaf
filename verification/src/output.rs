//! Routing of output lines: which sources are printed, and which files each source is
//! written to.

use vstd::prelude::*;
use crate::args::{ArgConfig, OutputMapping, OutputSource};

verus! {

/// A value for each output source.
pub struct PerSource<T> {
    pub bot_a: T,
    pub bot_b: T,
    pub gamelog: T,
}

impl<T> PerSource<T> {
    /// The value held for `source`.
    pub open spec fn of(self, source: OutputSource) -> T {
        match source {
            OutputSource::BotA => self.bot_a,
            OutputSource::BotB => self.bot_b,
            OutputSource::Gamelog => self.gamelog,
        }
    }

    /// A reference to the value held for `source`.
    pub fn get(&self, source: OutputSource) -> (r: &T)
        ensures
            *r == self.of(source),
    {
        match source {
            OutputSource::BotA => &self.bot_a,
            OutputSource::BotB => &self.bot_b,
            OutputSource::Gamelog => &self.gamelog,
        }
    }
}

/// Where the lines of each source go.
pub struct OutputRouting {
    /// Whether the source is printed.
    pub print: PerSource<bool>,
    /// The files that the source is written to, by their position among the mappings.
    pub files: PerSource<Vec<usize>>,
}

/// The entries that the first `m` sources of mapping number `file` add for `source`: one
/// for each time the mapping names it.
pub open spec fn hits(sources: Seq<OutputSource>, source: OutputSource, file: usize, m: int) -> Seq<usize>
    decreases m,
{
    if m <= 0 {
        Seq::empty()
    } else if sources[m - 1] == source {
        hits(sources, source, file, m - 1).push(file)
    } else {
        hits(sources, source, file, m - 1)
    }
}

/// The files that the first `n` mappings give to `source`, in the order of the mappings.
pub open spec fn routes(outputs: Seq<OutputMapping>, source: OutputSource, n: int) -> Seq<usize>
    decreases n,
{
    if n <= 0 {
        Seq::empty()
    } else {
        routes(outputs, source, n - 1) + hits(
            outputs[n - 1].sources@,
            source,
            (n - 1) as usize,
            outputs[n - 1].sources@.len() as int,
        )
    }
}

/// The files that a command line gives to `source`.
pub open spec fn files_of(cli: ArgConfig, source: OutputSource) -> Seq<usize> {
    match cli.output {
        Some(outputs) => routes(outputs@, source, outputs@.len() as int),
        None => Seq::empty(),
    }
}

/// Whether a command line has `source` printed.
pub open spec fn printed(cli: ArgConfig, source: OutputSource) -> bool {
    match cli.print {
        Some(sources) => sources@.contains(source),
        None => false,
    }
}

impl OutputRouting {
    /// Builds the routing that a command line asks for.
    pub fn new(cli: &ArgConfig) -> (r: OutputRouting)
        ensures
            forall|source: OutputSource| r.print.of(source) == printed(*cli, source),
            forall|source: OutputSource| (#[trigger] r.files.of(source))@ == files_of(*cli, source),
    {
        let mut print = PerSource { bot_a: false, bot_b: false, gamelog: false };
        match &cli.print {
            Some(sources) => {
                let mut i: usize = 0;
                while i < sources.len()
                    invariant
                        i <= sources@.len(),
                        forall|source: OutputSource|
                            #[trigger] print.of(source) <==> exists|k: int|
                                0 <= k < i && sources@[k] == source,
                    decreases sources@.len() - i,
                {
                    let ghost before = print;
                    match sources[i] {
                        OutputSource::BotA => { print.bot_a = true; },
                        OutputSource::BotB => { print.bot_b = true; },
                        OutputSource::Gamelog => { print.gamelog = true; },
                    }
                    proof {
                        assert forall|source: OutputSource| #[trigger]
                            print.of(source) <==> exists|k: int|
                                0 <= k < i + 1 && sources@[k] == source by {
                            if before.of(source) {
                                let k = choose|k: int| 0 <= k < i && sources@[k] == source;
                                assert(0 <= k < i + 1 && sources@[k] == source);
                            }
                            if source == sources@[i as int] {
                                assert(0 <= i < i + 1 && sources@[i as int] == source);
                            }
                        }
                    }
                    i += 1;
                }
            },
            None => {},
        }
        let mut files: PerSource<Vec<usize>> = PerSource {
            bot_a: Vec::new(),
            bot_b: Vec::new(),
            gamelog: Vec::new(),
        };
        match &cli.output {
            Some(outputs) => {
                let mut i: usize = 0;
                while i < outputs.len()
                    invariant
                        i <= outputs@.len(),
                        forall|source: OutputSource| (#[trigger] files.of(source))@ == routes(outputs@, source, i as int),
                    decreases outputs@.len() - i,
                {
                    let sources = &outputs[i].sources;
                    let mut k: usize = 0;
                    while k < sources.len()
                        invariant
                            i < outputs@.len(),
                            sources@ == outputs@[i as int].sources@,
                            k <= sources@.len(),
                            forall|source: OutputSource| (#[trigger] files.of(source))@ == routes(outputs@, source, i as int)
                                + hits(sources@, source, i, k as int),
                        decreases sources@.len() - k,
                    {
                        let ghost before = files;
                        match sources[k] {
                            OutputSource::BotA => { files.bot_a.push(i); },
                            OutputSource::BotB => { files.bot_b.push(i); },
                            OutputSource::Gamelog => { files.gamelog.push(i); },
                        }
                        proof {
                            assert forall|source: OutputSource| (#[trigger] files.of(source))@
                                == routes(outputs@, source, i as int) + hits(
                                sources@,
                                source,
                                i,
                                k + 1,
                            ) by {
                                let done = routes(outputs@, source, i as int);
                                let open = hits(sources@, source, i, k as int);
                                assert(before.of(source)@ == done + open);
                                if source == sources@[k as int] {
                                    assert((done + open).push(i) =~= done + open.push(i));
                                }
                            }
                        }
                        k += 1;
                    }
                    i += 1;
                }
            },
            None => {},
        }
        OutputRouting { print, files }
    }

    /// Where a line of `source` goes: whether it is printed, and the files it is written to.
    pub fn route(&self, source: OutputSource) -> (r: (bool, &Vec<usize>))
        ensures
            r.0 == self.print.of(source),
            *r.1 == self.files.of(source),
    {
        (*self.print.get(source), self.files.get(source))
    }
}

} // verus!
