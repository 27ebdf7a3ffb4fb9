use resumai::chain::{
    Chain, ChainEvent, ChainPhase, ChainStep, InferenceRequest, PromptTemplate, Rubric,
};
use resumai::splitter::split;

fn rubric() -> Rubric {
    Rubric {
        map: PromptTemplate::parse("You grade.", "Text:\n`{{text}}`\nGrade it.").unwrap(),
        reduce: PromptTemplate::parse("You combine.", "Grades:\n{{text}}\nCombine them.").unwrap(),
    }
}

fn mapped(page: usize, output: &str) -> ChainEvent {
    ChainEvent::Mapped { page, output: output.to_string() }
}

fn start(text: &str, max_words: usize) -> (Chain, Vec<InferenceRequest>) {
    let pages = split(text, max_words);
    match Chain::start(rubric(), &pages) {
        (chain, ChainStep::MapCalls(requests)) => (chain, requests),
        _ => panic!("no map calls"),
    }
}

#[test]
fn template_is_read_around_its_one_placeholder() {
    let template = PromptTemplate::parse("system", "before {{text}} after").unwrap();
    let request = template.render("PAGE");
    assert_eq!(request.system, "system");
    assert_eq!(request.user, "before PAGE after");
}

#[test]
fn template_may_begin_or_end_with_the_placeholder() {
    assert_eq!(PromptTemplate::parse("s", "{{text}}").unwrap().render("x").user, "x");
    assert_eq!(PromptTemplate::parse("s", "{{text}}!").unwrap().render("x").user, "x!");
    assert_eq!(PromptTemplate::parse("s", "?{{text}}").unwrap().render("x").user, "?x");
}

#[test]
fn template_without_a_placeholder_is_refused() {
    assert!(PromptTemplate::parse("system", "no slot here").is_none());
    assert!(PromptTemplate::parse("system", "").is_none());
    assert!(PromptTemplate::parse("system", "{{text}").is_none());
    assert!(PromptTemplate::parse("system", "{{ text }}").is_none());
    assert!(PromptTemplate::parse("{{text}}", "only the system part has it").is_none());
}

#[test]
fn template_with_two_placeholders_is_refused() {
    assert!(PromptTemplate::parse("system", "{{text}} and {{text}}").is_none());
    assert!(PromptTemplate::parse("system", "{{text}}{{text}}").is_none());
}

#[test]
fn rendered_text_is_not_read_as_a_template() {
    let template = PromptTemplate::parse("system", "a {{text}} b").unwrap();
    assert_eq!(template.render("{{text}} {% raw %}").user, "a {{text}} {% raw %} b");
    assert_eq!(template.render("").user, "a  b");
}

#[test]
fn template_made_of_its_parts_renders_them_in_order() {
    let template =
        PromptTemplate::new("sys".to_string(), "lead ".to_string(), " tail".to_string());
    let request = template.render("text");
    assert_eq!(request.system, "sys");
    assert_eq!(request.user, "lead text tail");
}

#[test]
fn single_page_takes_one_map_call_and_one_reduce_call() {
    let (mut chain, requests) = start("all on one page", 100);
    assert_eq!(chain.pages(), 1);
    assert_eq!(chain.phase(), ChainPhase::Mapping);
    assert_eq!(requests.len(), 1);
    assert_eq!(requests[0].system, "You grade.");
    assert_eq!(requests[0].user, "Text:\n`all on one page`\nGrade it.");
    match chain.advance(mapped(0, "grade: 7")) {
        ChainStep::ReduceCall(request) => {
            assert_eq!(request.system, "You combine.");
            assert_eq!(request.user, "Grades:\ngrade: 7\nCombine them.");
        }
        _ => panic!("no reduce call"),
    }
    assert_eq!(chain.phase(), ChainPhase::Reducing);
    match chain.advance(ChainEvent::Reduced { output: "final: 7".to_string() }) {
        ChainStep::Finished(result) => assert_eq!(result, "final: 7"),
        _ => panic!("not finished"),
    }
    assert_eq!(chain.phase(), ChainPhase::Finished);
}

#[test]
fn every_page_gets_its_own_map_call_in_order() {
    let (chain, requests) = start("a b\nc d\ne f\n", 2);
    assert_eq!(chain.pages(), 3);
    assert_eq!(requests.len(), 3);
    assert_eq!(requests[0].user, "Text:\n`a b\n`\nGrade it.");
    assert_eq!(requests[1].user, "Text:\n`c d\n`\nGrade it.");
    assert_eq!(requests[2].user, "Text:\n`e f\n`\nGrade it.");
}

#[test]
fn reduce_waits_until_every_map_call_has_returned() {
    let (mut chain, _) = start("a b\nc d\ne f\n", 2);
    assert!(matches!(chain.advance(mapped(2, "third")), ChainStep::Wait));
    assert_eq!(chain.phase(), ChainPhase::Mapping);
    assert!(matches!(chain.advance(mapped(0, "first")), ChainStep::Wait));
    assert_eq!(chain.phase(), ChainPhase::Mapping);
    match chain.advance(mapped(1, "second")) {
        ChainStep::ReduceCall(request) => {
            assert_eq!(request.user, "Grades:\nfirstsecondthird\nCombine them.")
        }
        _ => panic!("no reduce call"),
    }
    assert_eq!(chain.phase(), ChainPhase::Reducing);
}

#[test]
fn a_page_reported_twice_or_unknown_does_not_count() {
    let (mut chain, _) = start("a b\nc d\n", 2);
    assert!(matches!(chain.advance(mapped(0, "first")), ChainStep::Wait));
    assert!(matches!(chain.advance(mapped(0, "again")), ChainStep::Wait));
    assert!(matches!(chain.advance(mapped(2, "no such page")), ChainStep::Wait));
    assert_eq!(chain.phase(), ChainPhase::Mapping);
    match chain.advance(mapped(1, "second")) {
        ChainStep::ReduceCall(request) => {
            assert_eq!(request.user, "Grades:\nfirstsecond\nCombine them.")
        }
        _ => panic!("no reduce call"),
    }
}

#[test]
fn malformed_map_output_is_passed_on_as_it_is() {
    let (mut chain, _) = start("a b\nc d\n", 2);
    assert!(matches!(chain.advance(mapped(0, "")), ChainStep::Wait));
    match chain.advance(mapped(1, "{{text}} \u{0} ???")) {
        ChainStep::ReduceCall(request) => {
            assert_eq!(request.user, "Grades:\n{{text}} \u{0} ???\nCombine them.")
        }
        _ => panic!("no reduce call"),
    }
}

#[test]
fn a_failed_map_call_aborts_the_run_before_any_reduce_call() {
    let (mut chain, _) = start("a b\nc d\ne f\n", 2);
    assert!(matches!(chain.advance(mapped(0, "first")), ChainStep::Wait));
    assert!(matches!(chain.advance(ChainEvent::MapFailed { page: 1 }), ChainStep::Failed));
    assert_eq!(chain.phase(), ChainPhase::Failed);
    assert!(matches!(chain.advance(mapped(1, "late")), ChainStep::Over));
    assert!(matches!(chain.advance(mapped(2, "third")), ChainStep::Over));
    assert!(matches!(
        chain.advance(ChainEvent::Reduced { output: "never asked".to_string() }),
        ChainStep::Over
    ));
    assert_eq!(chain.phase(), ChainPhase::Failed);
}

#[test]
fn a_failed_reduce_call_fails_the_run() {
    let (mut chain, _) = start("one page", 10);
    assert!(matches!(chain.advance(mapped(0, "grade")), ChainStep::ReduceCall(_)));
    assert!(matches!(chain.advance(ChainEvent::ReduceFailed), ChainStep::Failed));
    assert_eq!(chain.phase(), ChainPhase::Failed);
    assert!(matches!(chain.advance(ChainEvent::ReduceFailed), ChainStep::Over));
}

#[test]
fn events_that_nothing_waits_for_change_nothing() {
    let (mut chain, _) = start("a b\nc d\n", 2);
    assert!(matches!(
        chain.advance(ChainEvent::Reduced { output: "early".to_string() }),
        ChainStep::Wait
    ));
    assert!(matches!(chain.advance(ChainEvent::ReduceFailed), ChainStep::Wait));
    assert_eq!(chain.phase(), ChainPhase::Mapping);
    assert!(matches!(chain.advance(mapped(0, "first")), ChainStep::Wait));
    assert!(matches!(chain.advance(mapped(1, "second")), ChainStep::ReduceCall(_)));
    assert!(matches!(chain.advance(mapped(1, "again")), ChainStep::Wait));
    assert!(matches!(chain.advance(ChainEvent::MapFailed { page: 0 }), ChainStep::Wait));
    assert_eq!(chain.phase(), ChainPhase::Reducing);
    assert!(matches!(
        chain.advance(ChainEvent::Reduced { output: "done".to_string() }),
        ChainStep::Finished(_)
    ));
    assert!(matches!(chain.advance(mapped(0, "late")), ChainStep::Over));
}

#[test]
fn a_run_over_no_pages_goes_straight_to_the_reduce_call() {
    let pages = split("", 10);
    let (mut chain, step) = Chain::start(rubric(), &pages);
    match step {
        ChainStep::ReduceCall(request) => assert_eq!(request.user, "Grades:\n\nCombine them."),
        _ => panic!("no reduce call"),
    }
    assert_eq!(chain.pages(), 0);
    assert_eq!(chain.phase(), ChainPhase::Reducing);
    assert!(matches!(
        chain.advance(ChainEvent::Reduced { output: "empty".to_string() }),
        ChainStep::Finished(_)
    ));
}
