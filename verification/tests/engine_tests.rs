use perfcheck::engine::{collect, Collector};
use perfcheck::report::CmdOutput;

fn out(name: &str) -> CmdOutput {
    CmdOutput { cmdname: name.to_string(), summary: format!("output of {}", name) }
}

fn names(results: &[CmdOutput]) -> Vec<String> {
    results.iter().map(|result| result.cmdname.clone()).collect()
}

#[test]
fn sequential_run_starts_one_command_at_a_time() {
    let mut run = Collector::new(3, false);
    assert_eq!(run.len(), 3);
    assert_eq!(run.dispatch(), vec![0]);
    assert!(run.dispatch().is_empty());
    run.record(0, Some(out("a")));
    assert_eq!(run.dispatch(), vec![1]);
    assert!(run.dispatch().is_empty());
    assert!(!run.is_complete());
    run.record(1, Some(out("b")));
    assert_eq!(run.dispatch(), vec![2]);
    run.record(2, Some(out("c")));
    assert!(run.dispatch().is_empty());
    assert!(run.is_complete());
    assert_eq!(names(&collect(run)), vec!["a", "b", "c"]);
}

#[test]
fn parallel_run_starts_every_command_at_once() {
    let mut run = Collector::new(4, true);
    assert_eq!(run.dispatch(), vec![0, 1, 2, 3]);
    assert!(run.dispatch().is_empty());
    assert!(!run.is_complete());
}

#[test]
fn results_keep_list_order_whatever_finishes_first() {
    let mut run = Collector::new(4, true);
    run.dispatch();
    run.record(2, Some(out("c")));
    run.record(0, Some(out("a")));
    run.record(3, Some(out("d")));
    assert!(!run.is_complete());
    run.record(1, Some(out("b")));
    assert!(run.is_complete());
    let results = collect(run);
    assert_eq!(names(&results), vec!["a", "b", "c", "d"]);
    assert_eq!(results[2].summary, "output of c");
}

#[test]
fn both_modes_give_the_same_list() {
    let labels = ["uptime", "vmstat", "free", "df", "sar"];
    let mut sequential = Collector::new(labels.len(), false);
    loop {
        let started = sequential.dispatch();
        if started.is_empty() {
            break;
        }
        for index in started {
            sequential.record(index, Some(out(labels[index])));
        }
    }
    let mut parallel = Collector::new(labels.len(), true);
    let mut started = parallel.dispatch();
    started.reverse();
    for index in started {
        parallel.record(index, Some(out(labels[index])));
    }
    assert!(sequential.is_complete());
    assert!(parallel.is_complete());
    let first = collect(sequential);
    let second = collect(parallel);
    assert_eq!(first, second);
    assert_eq!(first.len(), labels.len());
    assert_eq!(names(&first), labels);
}

#[test]
fn lost_unit_is_dropped_from_the_list() {
    let mut run = Collector::new(3, true);
    run.dispatch();
    run.record(1, None);
    run.record(2, Some(out("c")));
    run.record(0, Some(out("a")));
    assert!(run.is_complete());
    assert_eq!(names(&collect(run)), vec!["a", "c"]);
}

#[test]
fn outcome_for_a_command_that_is_not_running_is_dropped() {
    let mut run = Collector::new(2, false);
    run.record(0, Some(out("early")));
    run.record(7, Some(out("nowhere")));
    assert_eq!(run.dispatch(), vec![0]);
    run.record(1, Some(out("not started")));
    run.record(0, Some(out("a")));
    run.record(0, Some(out("again")));
    assert_eq!(run.dispatch(), vec![1]);
    run.record(1, Some(out("b")));
    let results = collect(run);
    assert_eq!(names(&results), vec!["a", "b"]);
}

#[test]
fn unfinished_commands_have_no_place_in_the_list() {
    let mut run = Collector::new(3, true);
    assert!(collect(Collector::new(3, true)).is_empty());
    run.dispatch();
    run.record(1, Some(out("b")));
    assert_eq!(names(&collect(run)), vec!["b"]);
}

#[test]
fn run_of_no_commands_is_complete_and_empty() {
    let mut run = Collector::new(0, false);
    assert!(run.is_complete());
    assert!(run.dispatch().is_empty());
    assert!(collect(run).is_empty());
}

#[test]
fn every_completion_order_gives_the_same_list() {
    let labels = ["a", "b", "c", "d"];
    let mut orders: Vec<Vec<usize>> = vec![Vec::new()];
    for _ in 0..labels.len() {
        let mut longer = Vec::new();
        for order in &orders {
            for index in 0..labels.len() {
                if !order.contains(&index) {
                    let mut next = order.clone();
                    next.push(index);
                    longer.push(next);
                }
            }
        }
        orders = longer;
    }
    assert_eq!(orders.len(), 24);
    for order in orders {
        let mut run = Collector::new(labels.len(), true);
        assert_eq!(run.dispatch().len(), labels.len());
        for index in order {
            run.record(index, Some(out(labels[index])));
        }
        assert!(run.is_complete());
        assert_eq!(names(&collect(run)), labels);
    }
}
