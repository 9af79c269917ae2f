use fi_slurm::accounts::{usage_cell_text, AcctUsageWidths, Layout};
use fi_slurm::db::{account_partitions, DbConnError, JobsError, QosError, partition_limits, qos_names, Partition, PartitionLimits, SlurmQos, TresMax};
use fi_slurm::jobs::{FilterMethod, Job, SlurmJobs};
use fi_slurm::limits::{feature_job_ids, heading_rules, leaderboard, leaderboard_feature, limit_table, limit_tables};
use fi_slurm::nodes::Node;
use fi_slurm::states::NodeState;
use std::collections::HashMap;
use fi_slurm::states::JobState;
use fi_slurm::tres_map::NameMap;

fn job(id: u32, user: &str, account: &str, partition: &str, state: JobState, nodes: u32, cpus: u32, gres: Option<&str>) -> Job {
    Job {
        job_id: id,
        array_job_id: 0,
        array_task_id: 0,
        name: format!("job{id}"),
        user_id: 1000,
        user_name: user.to_string(),
        group_id: 1000,
        partition: partition.to_string(),
        account: account.to_string(),
        job_state: state,
        state_flags: 0,
        state_description: String::new(),
        submit_time: 0,
        start_time: 0,
        end_time: 0,
        time_limit_minutes: 60,
        preemptable_time: 0,
        num_nodes: nodes,
        num_cpus: cpus,
        num_tasks: 1,
        raw_hostlist: String::new(),
        node_ids: Vec::new(),
        allocated_gres: NameMap::new(),
        gres_total: gres.map(|g| g.to_string()),
        work_dir: String::new(),
        command: String::new(),
        exit_code: 0,
    }
}

fn limits(partition: &str, qos: Option<&str>, per_user: Option<&str>, per_group: Option<&str>, max_jobs: Option<u32>) -> PartitionLimits {
    PartitionLimits {
        partition: partition.to_string(),
        qos: qos.map(|q| q.to_string()),
        max_jobs_per_user: max_jobs,
        max_tres_per_user: per_user.map(|s| s.to_string()),
        max_tres_per_group: per_group.map(|s| s.to_string()),
    }
}

fn sample_jobs() -> Vec<Job> {
    vec![
        job(1, "alice", "cca", "gen", JobState::Running, 2, 64, Some("gpu:a100:4")),
        job(2, "bob", "cca", "gen", JobState::Running, 1, 32, None),
        job(3, "alice", "cca", "gen", JobState::Pending, 5, 500, None),
        job(4, "alice", "cca", "ccb", JobState::Running, 1, 8, None),
        job(5, "carol", "other", "gen", JobState::Running, 3, 96, None),
    ]
}

#[test]
fn limits_user_rows_count_only_running_jobs_of_the_user() {
    let jobs = sample_jobs();
    let parts = vec![
        limits("gen", Some("gen"), Some("1=128,4=4,1001=8"), Some("1=1024"), Some(50)),
        limits("ccb", None, None, None, None),
    ];
    let (user, center) = limit_tables("alice", "cca", &parts, &jobs, false);
    // sorted by partition name: ccb before gen
    assert_eq!(user.len(), 2);
    assert_eq!(user[0].account, "ccb");
    assert_eq!((user[0].nodes, user[0].cores, user[0].gpus, user[0].jobs), (1, 8, 0, 1));
    assert_eq!(user[0].max_cores, None);
    assert_eq!(user[1].account, "gen");
    assert_eq!((user[1].nodes, user[1].cores, user[1].gpus, user[1].jobs), (2, 64, 4, 1));
    assert_eq!((user[1].max_cores, user[1].max_nodes, user[1].max_gpus, user[1].max_jobs), (Some(128), Some(4), Some(8), Some(50)));
    assert_eq!(user[1].qos, None);
    // only gen sets a group limit
    assert_eq!(center.len(), 1);
    assert_eq!(center[0].account, "gen");
    assert_eq!((center[0].nodes, center[0].cores, center[0].gpus, center[0].jobs), (3, 96, 4, 2));
    assert_eq!(center[0].max_cores, Some(1024));
    assert_eq!(center[0].max_jobs, None);
}

#[test]
fn limits_rows_without_usage_or_limits_are_hidden_unless_always_shown() {
    let jobs = sample_jobs();
    let parts = vec![
        limits("empty", None, None, None, None),
        limits("preempt", None, None, None, None),
    ];
    let rows = limit_table(&parts, &jobs, "alice", false, false);
    assert_eq!(rows.len(), 1);
    assert_eq!(rows[0].account, "preempt");
    let all = limit_table(&parts, &jobs, "alice", false, true);
    assert_eq!(all.len(), 2);
    assert_eq!(all[0].qos, Some("-".to_string()));
}

#[test]
fn limits_heading_rules_centre_the_title() {
    assert_eq!(heading_rules("abc", 15), (5, 5));
    assert_eq!(heading_rules("abcd", 15), (4, 5));
    assert_eq!(heading_rules("a very long title", 4), (0, 0));
}

#[test]
fn limits_tres_max_reads_each_resource() {
    let t = TresMax::new("1=64,2=1000,4=2,1001=8".to_string());
    assert_eq!((t.max_cores, t.max_memory, t.max_nodes, t.max_gpus), (Some(64), Some(1000), Some(2), Some(8)));
    let none = TresMax::new(String::new());
    assert_eq!(none.max_cores, None);
}

#[test]
fn limits_partition_limits_take_the_last_qos_of_the_name() {
    let parts = vec![
        Partition { name: "gen".to_string(), qos: Some("q1".to_string()), allow_accounts: None, deny_accounts: None },
        Partition { name: "ccb".to_string(), qos: None, allow_accounts: None, deny_accounts: None },
    ];
    let qos = vec![
        SlurmQos { name: "q1".to_string(), priority: 0, max_jobs_per_user: 10, max_tres_per_user: Some("1=8".to_string()), max_tres_per_group: None, max_tres_per_account: None, max_tres_per_job: None },
        SlurmQos { name: "q1".to_string(), priority: 0, max_jobs_per_user: u32::MAX, max_tres_per_user: Some("1=16".to_string()), max_tres_per_group: None, max_tres_per_account: None, max_tres_per_job: None },
    ];
    let out = partition_limits(&parts, &qos);
    assert_eq!(out.len(), 2);
    assert_eq!(out[0].partition, "gen");
    assert_eq!(out[0].max_tres_per_user, Some("1=16".to_string()));
    assert_eq!(out[0].max_jobs_per_user, None);
    assert_eq!(out[1].max_tres_per_user, None);
    assert_eq!(out[1].qos, None);
}

#[test]
fn limits_qos_names_are_sorted_and_distinct() {
    let mk = |n: &str, q: Option<&str>| Partition { name: n.to_string(), qos: q.map(|s| s.to_string()), allow_accounts: None, deny_accounts: None };
    let parts = vec![mk("a", Some("zeta")), mk("b", Some("alpha")), mk("c", None), mk("d", Some("zeta"))];
    assert_eq!(qos_names(&parts), vec!["alpha".to_string(), "zeta".to_string()]);
}

#[test]
fn limits_account_partitions_keep_those_the_account_may_use() {
    let parts = vec![
        Partition::from_fields("gen".to_string(), String::new(), "", ""),
        Partition::from_fields("cca".to_string(), String::new(), "cca,ccb", ""),
        Partition::from_fields("closed".to_string(), String::new(), "", "cca"),
    ];
    let kept = account_partitions(parts, "cca");
    let names: Vec<&str> = kept.iter().map(|p| p.name.as_str()).collect();
    assert_eq!(names, vec!["gen", "cca"]);
}

#[test]
fn limits_filter_by_keeps_matching_jobs_in_order() {
    let jobs = SlurmJobs { jobs: sample_jobs(), last_update: 0, last_backfill: 0 };
    let kept = jobs.filter_by(FilterMethod::UserName("alice".to_string()));
    let ids: Vec<u32> = kept.jobs.iter().map(|j| j.job_id).collect();
    assert_eq!(ids, vec![1, 3, 4]);
    assert_eq!(kept.get_resource_use(), (8, 572));
    assert_eq!(kept.get_gres_total(), 4);
}

#[test]
fn gres_total_counts_the_number_after_the_last_colon() {
    let jobs = SlurmJobs {
        jobs: vec![
            job(1, "a", "x", "gen", JobState::Running, 1, 1, Some("gpu:3090:2")),
            job(2, "a", "x", "gen", JobState::Running, 1, 1, Some("gpu:8")),
            job(3, "a", "x", "gen", JobState::Running, 1, 1, Some("gpu")),
            job(4, "a", "x", "gen", JobState::Running, 1, 1, Some("7:gpu")),
            job(5, "a", "x", "gen", JobState::Running, 1, 1, None),
        ],
        last_update: 0,
        last_backfill: 0,
    };
    assert_eq!(jobs.get_gres_total(), 10);
}

#[test]
fn leaderboard_ranks_users_by_nodes_then_cores() {
    let jobs = vec![
        job(1, "alice", "a", "gen", JobState::Running, 2, 10, None),
        job(2, "bob", "a", "gen", JobState::Running, 3, 5, None),
        job(3, "carol", "a", "gen", JobState::Running, 2, 40, None),
        job(4, "alice", "a", "gen", JobState::Running, 1, 1, None),
        job(5, "dave", "a", "gen", JobState::Pending, 9, 90, None),
    ];
    let board = leaderboard(&jobs, 10);
    assert_eq!(board.len(), 3);
    assert_eq!(board[0], ("alice".to_string(), 3, 11));
    assert_eq!(board[1], ("bob".to_string(), 3, 5));
    assert_eq!(board[2], ("carol".to_string(), 2, 40));
    let top = leaderboard(&jobs, 1);
    assert_eq!(top, vec![("alice".to_string(), 3, 11)]);
    assert!(leaderboard(&jobs, 0).is_empty());
}

fn node(id: usize, features: &[&str]) -> Node {
    Node {
        id,
        name: format!("n{id}"),
        state: NodeState::Idle,
        cpus: 8,
        real_memory: 0,
        free_memory: 0,
        features: features.iter().map(|f| f.to_string()).collect(),
        active_features: Vec::new(),
        gpu_info: None,
        gres: String::new(),
        gres_used: String::new(),
        partitions: String::new(),
        reason: String::new(),
    }
}

#[test]
fn leaderboard_feature_counts_jobs_on_matching_nodes() {
    let nodes = vec![node(0, &["gpu", "icelake"]), node(1, &["genoa"]), node(2, &["skylake"])];
    let mut map: HashMap<usize, Vec<u32>> = HashMap::new();
    map.insert(0, vec![1]);
    map.insert(1, vec![2]);
    map.insert(2, vec![3]);
    let features = vec!["gpu".to_string(), "genoa".to_string()];
    assert_eq!(feature_job_ids(&nodes, &map, &features), vec![1, 2]);
    let jobs = SlurmJobs {
        jobs: vec![
            job(1, "alice", "a", "gen", JobState::Running, 1, 4, None),
            job(2, "bob", "a", "gen", JobState::Running, 2, 8, None),
            job(3, "carol", "a", "gen", JobState::Running, 5, 50, None),
        ],
        last_update: 0,
        last_backfill: 0,
    };
    let board = leaderboard_feature(jobs, &nodes, &map, &features, 20);
    assert_eq!(board, vec![("bob".to_string(), 2, 8), ("alice".to_string(), 1, 4)]);
}

#[test]
fn database_errors_say_what_went_wrong() {
    assert_eq!(QosError::QosListNull.message(), "Pointer to qos_list is null");
    assert_eq!(QosError::EmptyQosListError.message(), "List of QoS successfully retrieved but empty");
    assert_eq!(JobsError::JobsListNull.message(), "Pointer to jobs_list is null");
    assert_eq!(JobsError::EmptyJobsListError.message(), "List of jobs successfully retrieved but empty");
    assert_eq!(
        DbConnError::DbConnectionError.message(),
        "Could not establish connection to SlurmDB. Please ensure that SlurmDB is present and slurm_init has been run."
    );
}

#[test]
fn limits_shared_widths_line_both_tables_up() {
    let jobs = sample_jobs();
    let parts = vec![
        limits("gen", Some("gen-qos"), Some("1=128,4=4,1001=8"), Some("1=1024"), Some(50)),
        limits("ccb", None, None, None, None),
    ];
    let (user, center) = limit_tables("alice", "cca", &parts, &jobs, true);
    let widths = AcctUsageWidths::default().measure(&user).measure(&center);
    let layout = Layout::new(&widths, "PARTITION");
    let header = layout.header("PARTITION");
    assert_eq!(header.len(), layout.width());
    for row in user.iter().chain(center.iter()) {
        let mut line = layout.row_label(row);
        for (used, limit, column) in [
            (row.cores, row.max_cores, &layout.cores),
            (row.nodes, row.max_nodes, &layout.nodes),
            (row.gpus, row.max_gpus, &layout.gpus),
            (row.jobs, row.max_jobs, &layout.jobs),
        ] {
            let (cell, pad) = usage_cell_text(used, limit, column.used, column.limit, column.width);
            line.push_str("    ");
            line.push_str(&cell);
            line.push_str(&pad);
        }
        assert_eq!(line.len(), header.len(), "{line:?}");
    }
}

#[test]
fn from_jobs_files_jobs_by_id_the_later_one_standing() {
    let jobs = SlurmJobs::from_jobs(
        vec![
            job(1, "old", "a", "gen", JobState::Running, 1, 1, None),
            job(2, "b", "a", "gen", JobState::Running, 1, 1, None),
            job(1, "new", "a", "gen", JobState::Running, 1, 1, None),
            job(3, "c", "a", "gen", JobState::Pending, 1, 1, None),
        ],
        7,
        9,
    );
    let seen: Vec<(u32, &str)> = jobs.jobs.iter().map(|j| (j.job_id, j.user_name.as_str())).collect();
    assert_eq!(seen, vec![(2, "b"), (1, "new"), (3, "c")]);
    assert_eq!((jobs.last_update, jobs.last_backfill), (7, 9));
}
