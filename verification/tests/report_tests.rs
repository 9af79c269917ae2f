use fi_slurm::detail::build_report;
use fi_slurm::detail_table::{get_available_cpus, get_available_gpus, get_available_nodes, get_report_widths, get_utilized_nodes};
use fi_slurm::tree_table::{tree_report_lines, BarKind, Layout, Span, BAR_WIDTH_MAX, BAR_WIDTH_MIN};
use fi_slurm::filter::FeatureQuery;
use fi_slurm::jobs::{build_node_to_job_map, Job, SlurmJobs};
use fi_slurm::nodes::{create_gpu_info, Node, SlurmNodes};
use fi_slurm::preempt::preempt_node;
use fi_slurm::states::{is_node_available, JobState, NodeState};
use fi_slurm::summary::{build_summary_report, summary_feature_order, summary_totals};
use fi_slurm::tree::build_tree_report;
use fi_slurm::tres_map::NameMap;
use std::collections::HashMap;

fn node(id: usize, name: &str, state: NodeState, cpus: u16, features: &[&str]) -> Node {
    Node {
        id,
        name: name.to_string(),
        state,
        cpus,
        real_memory: 0,
        free_memory: 0,
        features: features.iter().map(|f| f.to_string()).collect(),
        active_features: Vec::new(),
        gpu_info: None,
        gres: String::new(),
        gres_used: String::new(),
        partitions: String::new(),
        reason: String::new(),
    }
}

fn job(id: u32, cpus: u32, node_ids: Vec<usize>) -> Job {
    Job {
        job_id: id,
        array_job_id: 0,
        array_task_id: 0,
        name: String::new(),
        user_id: 1,
        user_name: "u".to_string(),
        group_id: 1,
        partition: "gen".to_string(),
        account: "a".to_string(),
        job_state: JobState::Running,
        state_flags: 0,
        state_description: String::new(),
        submit_time: 0,
        start_time: 0,
        end_time: 0,
        time_limit_minutes: 10,
        preemptable_time: 0,
        num_nodes: node_ids.len() as u32,
        num_cpus: cpus,
        num_tasks: 1,
        raw_hostlist: String::new(),
        node_ids,
        allocated_gres: NameMap::new(),
        gres_total: None,
        work_dir: String::new(),
        command: String::new(),
        exit_code: 0,
    }
}

#[test]
fn states_labels_and_availability() {
    assert_eq!(NodeState::from_state(2).label(), "Idle");
    assert_eq!(NodeState::from_state(3).label(), "Allocated");
    let drained = NodeState::from_state(2 | 0x200);
    assert_eq!(drained.label(), "IDLE+DRAIN");
    assert!(is_node_available(&NodeState::Idle));
    assert!(!is_node_available(&drained));
    assert_eq!(JobState::from_state(1), JobState::Running);
}

#[test]
fn states_flag_bits_follow_slurm_numbering() {
    assert_eq!(NodeState::from_state(2 | 16).label(), "IDLE+EXTERNAL");
    assert_eq!(NodeState::from_state(1 | (1 << 21)).label(), "DOWN+REBOOT_PLANNED");
    assert_eq!(NodeState::from_state(5 | (1 << 27) | (1 << 15)).label(), "MIXED+MAINT+BLOCKED");
    assert_eq!(NodeState::from_state(3 | (1 << 28) | (1 << 31)).label(), "Allocated");
    assert_eq!(NodeState::from_state(0).label(), "UNKNOWN(BASE(0))");
    assert_eq!(NodeState::from_state(9 | 32).label(), "UNKNOWN(BASE(9))+RES");
}

#[test]
fn states_compound_label_is_upper_case() {
    let s = NodeState::Compound { base: Box::new(NodeState::Idle), flags: vec!["DRAIN".to_string()] };
    assert_eq!(s.label(), "IDLE+DRAIN");
    let t = NodeState::Compound { base: Box::new(NodeState::Unknown("x".to_string())), flags: vec!["drain".to_string(), "maint".to_string()] };
    assert_eq!(t.label(), "UNKNOWN(X)+drain+maint");
    assert_eq!(NodeState::Unknown("x".to_string()).label(), "UNKNOWN(x)");
}

#[test]
fn nodes_gpu_info_reads_the_first_gpu_entry() {
    let g = create_gpu_info("gpu:a100:4(S:0-1)", "gpu:a100:1(IDX:0)").expect("a gpu node");
    assert_eq!(g.name, "gpu:a100");
    assert_eq!((g.total_gpus, g.allocated_gpus), (4, 1));
    assert!(create_gpu_info("", "").is_none());
}

#[test]
fn jobs_map_nodes_to_their_jobs() {
    let jobs = SlurmJobs { jobs: vec![job(7, 4, vec![0, 1]), job(8, 2, vec![1])], last_update: 0, last_backfill: 0 };
    let map = build_node_to_job_map(&jobs);
    assert_eq!(map.get(&0), Some(&vec![7]));
    assert_eq!(map.get(&1), Some(&vec![7, 8]));
    assert_eq!(map.get(&2), None);
}

fn cluster() -> (Vec<Node>, SlurmJobs, HashMap<usize, Vec<u32>>) {
    let nodes = vec![
        node(0, "a1", NodeState::Idle, 64, &["icelake", "ib"]),
        node(1, "a2", NodeState::Mixed, 64, &["icelake", "ib"]),
        node(2, "b1", NodeState::Allocated, 32, &["genoa"]),
    ];
    let jobs = SlurmJobs { jobs: vec![job(1, 16, vec![1]), job(2, 32, vec![2])], last_update: 0, last_backfill: 0 };
    let map = build_node_to_job_map(&jobs);
    (nodes, jobs, map)
}

#[test]
fn tree_report_totals_every_node() {
    let (nodes, jobs, map) = cluster();
    let refs: Vec<&Node> = nodes.iter().collect();
    let selection = FeatureQuery::parse(&[]).unwrap();
    let root = build_tree_report(&refs, &jobs, &map, &selection, false, false, false, None, false);
    assert_eq!(root.name, "Total");
    assert_eq!(root.stats.total_nodes, 3);
    assert_eq!(root.stats.total_cpus, 160);
    assert_eq!(root.stats.alloc_cpus, 48);
    assert_eq!(root.stats.idle_nodes, 1);
}

#[test]
fn summary_report_counts_each_feature() {
    let (nodes, jobs, map) = cluster();
    let refs: Vec<&Node> = nodes.iter().collect();
    let report = build_summary_report(&refs, &jobs, &map);
    let order = summary_feature_order(&report);
    let names: Vec<&str> = order.iter().map(|&i| report.features[i].0.as_str()).collect();
    assert_eq!(names, vec!["genoa", "ib", "icelake"]);
    let icelake = report.features.iter().find(|(n, _)| n == "icelake").unwrap();
    assert_eq!(icelake.1.total_nodes, 2);
    assert_eq!(icelake.1.total_cpus, 128);
    let totals = summary_totals(&report);
    assert!(totals.total_nodes >= 3);
}

#[test]
fn detail_report_groups_nodes_by_state() {
    let (nodes, jobs, map) = cluster();
    let refs: Vec<&Node> = nodes.iter().collect();
    let report = build_report(&refs, &jobs, &map, true, false, false);
    let total_nodes: u32 = report.groups.iter().map(|(_, g)| g.summary.node_count).sum();
    assert_eq!(total_nodes, 3);
    let total_cpus: u32 = report.groups.iter().map(|(_, g)| g.summary.total_cpus).sum();
    assert_eq!(total_cpus, 160);
}

#[test]
fn detail_overall_shares_stay_within_the_totals() {
    let (nodes, jobs, map) = cluster();
    let refs: Vec<&Node> = nodes.iter().collect();
    let report = build_report(&refs, &jobs, &map, false, false, false);
    let (_, total) = get_report_widths(&report, false);
    assert_eq!(total.node_count, 3);
    assert_eq!(total.total_cpus, 160);
    assert!(get_available_nodes(&report) <= total.node_count);
    assert!(get_available_cpus(&report) <= total.total_cpus);
    assert!(get_available_gpus(&report) <= total.total_gpus);
    assert!(get_utilized_nodes(&report) <= total.node_count);
}

#[test]
fn tree_layout_bars_stay_within_their_bounds() {
    let free = Layout::solve(12, 9, 11, 0, false, None);
    assert_eq!(free.bar_width, Some(BAR_WIDTH_MAX));
    assert_eq!(free.titles(false), ("Nodes Available".to_string(), "Cores Available".to_string()));
    // 12 + 9 + 11 + 8 = 40 fixed columns leave 30 of a 70-column budget, 15 per bar
    let fitted = Layout::solve(12, 9, 11, 0, true, Some(70));
    assert_eq!(fitted.bar_width, Some(15));
    assert!(fitted.total_width() + fitted.names_w <= 70);
    let narrow = Layout::solve(12, 9, 11, 0, true, Some(47));
    assert_eq!(narrow.bar_width, None);
    assert_eq!(narrow.titles(true), ("Nodes".to_string(), "GPUs".to_string()));
    for budget in 40..120 {
        let l = Layout::solve(12, 9, 11, 11, false, Some(budget));
        if let Some(w) = l.bar_width {
            assert!((BAR_WIDTH_MIN..=BAR_WIDTH_MAX).contains(&w));
            assert!(l.total_width() + l.names_w <= budget);
        }
    }
}

#[test]
fn tree_bars_measure_against_the_top_level() {
    let (nodes, jobs, map) = cluster();
    let refs: Vec<&Node> = nodes.iter().collect();
    let selection = FeatureQuery::parse(&[]).unwrap();
    let root = build_tree_report(&refs, &jobs, &map, &selection, false, false, false, None, false);
    let lines = tree_report_lines(&root, false, false, false, None);
    // header, rule, the top line, and a row per level beneath it
    assert!(lines.len() >= 4);
    let mut bars = 0;
    for line in &lines {
        for span in line {
            if let Span::Bar { total, kind, .. } = span {
                bars += 1;
                match kind {
                    BarKind::Nodes => assert_eq!(*total, 3),
                    _ => assert_eq!(*total, 160),
                }
            }
        }
    }
    assert_eq!(bars, 2 * (lines.len() - 2));
}

#[test]
fn detail_flags_do_not_hide_idle_cores() {
    let drained = NodeState::Compound { base: Box::new(NodeState::Idle), flags: vec!["DRAIN".to_string()] };
    let nodes = vec![node(0, "a1", drained, 64, &["icelake"]), node(1, "a2", NodeState::Idle, 64, &["icelake"])];
    let jobs = SlurmJobs { jobs: Vec::new(), last_update: 0, last_backfill: 0 };
    let map = build_node_to_job_map(&jobs);
    let refs: Vec<&Node> = nodes.iter().collect();
    let report = build_report(&refs, &jobs, &map, false, false, false);
    assert_eq!(report.groups.len(), 2);
    for (_, group) in &report.groups {
        assert_eq!(group.summary.node_count, 1);
        assert_eq!(group.summary.idle_cpus, 64);
    }
}

#[test]
fn preempt_node_frees_nodes_whose_jobs_may_be_preempted_by_now() {
    let mut a = job(1, 4, vec![0]);
    a.preemptable_time = 100;
    let mut b = job(2, 4, vec![1]);
    b.preemptable_time = 100;
    let c = job(3, 4, vec![1]);
    let jobs = SlurmJobs { jobs: vec![a, b, c], last_update: 0, last_backfill: 0 };
    let map = build_node_to_job_map(&jobs);
    let fresh = || SlurmNodes {
        nodes: vec![
            node(0, "n0", NodeState::Allocated, 4, &[]),
            node(1, "n1", NodeState::Allocated, 8, &[]),
        ],
        last_update: 0,
    };
    let mut early = fresh();
    let none = preempt_node(&mut early, &map, &jobs, 99);
    assert!(none.0.is_empty());
    assert_eq!(early.nodes[0].state.label(), "Allocated");
    let mut late = fresh();
    let changed = preempt_node(&mut late, &map, &jobs, 100);
    assert_eq!(changed.0, vec![0, 1]);
    assert_eq!(late.nodes[0].state.label(), "Idle");
    assert_eq!(late.nodes[1].state.label(), "Mixed");
}
