use mm_engine::args::{
    parse_cli, parse_output_mappings, parse_source, parse_sources, ArgConfig, Message,
    OutputMapping, OutputSource,
};
use mm_engine::output::OutputRouting;

fn cli(print: Option<Vec<OutputSource>>, output: Option<Vec<OutputMapping>>) -> ArgConfig {
    ArgConfig { bot_a: String::from("bots/a"), bot_b: String::from("bots/b"), print, output }
}

#[test]
fn source_letters() {
    assert_eq!(parse_source("a"), Ok(OutputSource::BotA));
    assert_eq!(parse_source("A"), Ok(OutputSource::BotA));
    assert_eq!(parse_source("b"), Ok(OutputSource::BotB));
    assert_eq!(parse_source("B"), Ok(OutputSource::BotB));
    assert_eq!(parse_source("g"), Ok(OutputSource::Gamelog));
    assert_eq!(parse_source("G"), Ok(OutputSource::Gamelog));
}

#[test]
fn other_words_name_no_source() {
    assert_eq!(parse_source("x"), Err(String::from("Invalid source 'x'")));
    assert_eq!(parse_source(""), Err(String::from("Invalid source ''")));
    assert_eq!(parse_source("ab"), Err(String::from("Invalid source 'ab'")));
    assert_eq!(parse_source("é"), Err(String::from("Invalid source 'é'")));
}

#[test]
fn source_lists() {
    assert_eq!(
        parse_sources("a,b,g"),
        Ok(vec![OutputSource::BotA, OutputSource::BotB, OutputSource::Gamelog])
    );
    assert_eq!(parse_sources("G"), Ok(vec![OutputSource::Gamelog]));
    assert_eq!(parse_sources("b,b"), Ok(vec![OutputSource::BotB, OutputSource::BotB]));
}

#[test]
fn source_lists_fail_on_the_first_bad_word() {
    assert_eq!(parse_sources(""), Err(String::from("Invalid source ''")));
    assert_eq!(parse_sources("a,"), Err(String::from("Invalid source ''")));
    assert_eq!(parse_sources("a,,b"), Err(String::from("Invalid source ''")));
    assert_eq!(parse_sources("a,x,y"), Err(String::from("Invalid source 'x'")));
    assert_eq!(parse_sources("ab,g"), Err(String::from("Invalid source 'ab'")));
    assert_eq!(parse_sources("a,b,zz"), Err(String::from("Invalid source 'zz'")));
}

#[test]
fn output_mappings() {
    assert_eq!(
        parse_output_mappings("a,b:foo.txt"),
        Ok(OutputMapping {
            sources: vec![OutputSource::BotA, OutputSource::BotB],
            path: String::from("foo.txt"),
        })
    );
    assert_eq!(
        parse_output_mappings("g:log:json"),
        Ok(OutputMapping { sources: vec![OutputSource::Gamelog], path: String::from("log:json") })
    );
    assert_eq!(
        parse_output_mappings("g:"),
        Ok(OutputMapping { sources: vec![OutputSource::Gamelog], path: String::new() })
    );
}

#[test]
fn output_mappings_that_fail() {
    assert_eq!(
        parse_output_mappings("foo.txt"),
        Err(String::from("Invalid format for output mapping 'foo.txt'. Use -o a,b:foo.txt"))
    );
    assert_eq!(
        parse_output_mappings(""),
        Err(String::from("Invalid format for output mapping ''. Use -o a,b:foo.txt"))
    );
    assert_eq!(parse_output_mappings("x:foo.txt"), Err(String::from("Invalid source 'x'")));
    assert_eq!(parse_output_mappings(":foo.txt"), Err(String::from("Invalid source ''")));
}

#[test]
fn bare_command_line_prints_everything() {
    let done = parse_cli(cli(None, None));
    assert_eq!(
        done.print,
        Some(vec![OutputSource::BotA, OutputSource::BotB, OutputSource::Gamelog])
    );
    assert_eq!(done.output, None);
    assert_eq!(done.bot_a, "bots/a");
    assert_eq!(done.bot_b, "bots/b");
}

#[test]
fn given_lists_are_kept() {
    let printed = parse_cli(cli(Some(vec![OutputSource::Gamelog]), None));
    assert_eq!(printed.print, Some(vec![OutputSource::Gamelog]));
    assert_eq!(printed.output, None);
    let mapping = OutputMapping { sources: vec![OutputSource::BotA], path: String::from("a.txt") };
    let filed = parse_cli(cli(None, Some(vec![mapping.clone()])));
    assert_eq!(filed.print, None);
    assert_eq!(filed.output, Some(vec![mapping]));
}

#[test]
fn source_indices() {
    assert_eq!(OutputSource::BotA.index(), 0);
    assert_eq!(OutputSource::BotB.index(), 1);
    assert_eq!(OutputSource::Gamelog.index(), 2);
}

#[test]
fn routing_follows_the_command_line() {
    let outputs = vec![
        OutputMapping {
            sources: vec![OutputSource::BotA, OutputSource::Gamelog],
            path: String::from("one"),
        },
        OutputMapping { sources: vec![OutputSource::BotB], path: String::from("two") },
        OutputMapping {
            sources: vec![OutputSource::Gamelog, OutputSource::Gamelog, OutputSource::BotA],
            path: String::from("three"),
        },
    ];
    let routing = OutputRouting::new(&cli(Some(vec![OutputSource::BotB]), Some(outputs)));
    let line = Message { msg: String::from("# TIE"), source: OutputSource::Gamelog };
    assert_eq!(routing.route(line.source), (false, &vec![0, 2, 2]));
    assert_eq!(routing.route(OutputSource::BotA), (false, &vec![0, 2]));
    assert_eq!(routing.route(OutputSource::BotB), (true, &vec![1]));
}

#[test]
fn routing_of_a_bare_command_line() {
    let routing = OutputRouting::new(&parse_cli(cli(None, None)));
    for source in [OutputSource::BotA, OutputSource::BotB, OutputSource::Gamelog] {
        assert_eq!(routing.route(source), (true, &Vec::new()));
    }
    let silent = OutputRouting::new(&cli(None, None));
    assert_eq!(silent.route(OutputSource::Gamelog), (false, &Vec::new()));
}
