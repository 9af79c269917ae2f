use fi_slurm::interface::{
    capacity_from, data_result, get_cpu_by_account_data, get_gpu_capacity_by_type, prometheus_data_request, request_unit, series_scale,
    usage_from, PrometheusDataResult, PrometheusDataType, PrometheusRequest,
};
use fi_slurm::interface::PrometheusTimeScale as Unit;
use fi_slurm::prometheus::{
    capacity_query, get_max_resource, get_time_range, get_usage_by, group_by, range_group_by, series_start, step_seconds, usage_query, Grouping,
    PrometheusResult, PrometheusTimeScale, Resource,
};
use fi_slurm::tres_map::NameMap;
use fi_slurm::tui::{AppError, CapacityData, UsageData};

fn series(labels: &[(&str, &str)], points: Option<Vec<(i64, &str)>>) -> PrometheusResult {
    let mut metric = NameMap::new();
    for (k, v) in labels {
        metric.insert(k.to_string(), v.to_string());
    }
    PrometheusResult {
        metric,
        value: None,
        values: points.map(|ps| ps.into_iter().map(|(t, v)| (t, v.to_string())).collect()),
    }
}

#[test]
fn prometheus_labels_and_steps() {
    assert_eq!(Grouping::Account.label(), "account");
    assert_eq!(Grouping::Nodes.label(), "nodes");
    assert_eq!(Grouping::GpuType.label(), "gputype");
    assert_eq!(Resource::Bytes.label(), "bytes");
    assert_eq!(PrometheusTimeScale::Weeks.label(), "1w");
    assert_eq!(PrometheusTimeScale::default(), PrometheusTimeScale::Days);
    assert_eq!(step_seconds(PrometheusTimeScale::Weeks), 604800);
    assert_eq!(step_seconds(PrometheusTimeScale::Years), 31536000);
}

#[test]
fn prometheus_next_and_prev_undo_each_other() {
    let all = [
        PrometheusTimeScale::Minutes,
        PrometheusTimeScale::Hours,
        PrometheusTimeScale::Days,
        PrometheusTimeScale::Weeks,
        PrometheusTimeScale::Years,
    ];
    for s in all {
        assert_eq!(s.next().prev(), s);
        assert_eq!(s.prev().next(), s);
        assert_eq!(s.next().next().next().next().next(), s);
    }
    assert_eq!(PrometheusTimeScale::Years.next(), PrometheusTimeScale::Minutes);
    assert_eq!(PrometheusTimeScale::Minutes.prev(), PrometheusTimeScale::Years);
}

#[test]
fn prometheus_queries_are_written_exactly() {
    assert_eq!(
        usage_query(Grouping::Account, Resource::Cpus),
        "sum by(account) (slurm_job_cpus{state=\"running\",job=\"slurm\"})"
    );
    assert_eq!(
        capacity_query(Some(Grouping::GpuType), Resource::Gpus),
        "sum by(gputype) (slurm_node_gpus{state!=\"drain\",state!=\"down\"})"
    );
    assert_eq!(
        capacity_query(None, Resource::Cpus),
        "sum  (slurm_node_cpus{state!=\"drain\",state!=\"down\"})"
    );
}

#[test]
fn prometheus_range_group_by_fills_missing_points_with_zero() {
    let result = vec![
        series(&[("account", "cca")], Some(vec![(1000, "5"), (1120, "7"), (1060, "x")])),
        series(&[("account", "ccb")], Some(vec![(1060, "2")])),
        series(&[], Some(vec![(1000, "9")])),
        series(&[("other", "y")], Some(vec![(1000, "1")])),
        series(&[("account", "ccc")], None),
    ];
    let out = range_group_by(&result, Grouping::Account, 1000, PrometheusTimeScale::Minutes, 2);
    assert_eq!(out.len(), 3);
    assert_eq!(out.get_ref("cca"), Some(&vec![5, 0, 7]));
    assert_eq!(out.get_ref("ccb"), Some(&vec![0, 2, 0]));
    assert_eq!(out.get_ref("Total"), Some(&vec![9, 0, 0]));
    assert_eq!(out.get_ref("ccc"), None);
}

#[test]
fn prometheus_later_points_replace_earlier_ones() {
    let result = vec![
        series(&[("nodes", "n1")], Some(vec![(0, "1"), (0, "4")])),
        series(&[("nodes", "n1")], Some(vec![(60, "3")])),
    ];
    let out = get_usage_by(Grouping::Nodes, &result, 0, PrometheusTimeScale::Minutes, 1);
    assert_eq!(out.get_ref("n1"), Some(&vec![4, 3]));
}

#[test]
fn prometheus_max_resource_without_grouping_is_one_total() {
    let mut s = series(&[], None);
    s.value = Some((0, "1234".to_string()));
    let out = get_max_resource(None, &[s], 0, PrometheusTimeScale::Days, 7);
    assert_eq!(out.len(), 1);
    assert_eq!(out.get_ref("total"), Some(&vec![1234]));
    let empty = get_max_resource(None, &[], 0, PrometheusTimeScale::Days, 7);
    assert_eq!(empty.get_ref("total"), Some(&vec![0]));
}

#[test]
fn prometheus_time_range_steps_back_from_now() {
    let now: i64 = 1_700_000_000;
    let r = get_time_range(now, 2, PrometheusTimeScale::Hours);
    assert_eq!((r.now, r.start_time), (now, Some(now - 7200)));
    let m = get_time_range(now, 5, PrometheusTimeScale::Minutes);
    assert_eq!(m.start_time, Some(now - 300));
    let days = get_time_range(now, 2, PrometheusTimeScale::Days);
    assert_eq!(days.start_time, Some(now - 2 * 86400));
    let d = get_time_range(now, 3, PrometheusTimeScale::Weeks);
    assert_eq!(d.start_time, Some(now - 3 * 7 * 86400));
    let y = get_time_range(now, 0, PrometheusTimeScale::Years);
    assert_eq!(y.start_time, Some(now));
    let y1 = get_time_range(now, 1, PrometheusTimeScale::Years);
    assert_eq!(y1.start_time, Some(now - 365 * 86400));
}

#[test]
fn interface_requests_name_the_page_data() {
    let r = get_cpu_by_account_data(7, Unit::Day);
    assert_eq!(r, PrometheusRequest::new(Some(Grouping::Account), Resource::Cpus, 7, Unit::Day));
    let q = prometheus_data_request(r, PrometheusDataType::Usage);
    assert_eq!(q.query, "sum by(account) (slurm_job_cpus{state=\"running\",job=\"slurm\"})");
    assert_eq!(q.step, "1d");
    assert_eq!(q.range, 7);
    let c = prometheus_data_request(get_gpu_capacity_by_type(3, Unit::Year), PrometheusDataType::Capacity);
    assert_eq!(c.query, "sum by(gputype) (slurm_node_gpus{state!=\"drain\",state!=\"down\"})");
    assert_eq!(c.step, "1Y");
}

#[test]
fn interface_answers_of_the_wrong_kind_are_errors() {
    let usage = data_result(PrometheusDataType::Usage, NameMap::new());
    assert!(matches!(usage, PrometheusDataResult::Usage(_)));
    match capacity_from(Ok(usage)) {
        Err(AppError::DataFetch(m)) => assert_eq!(m, "Unexpected data type returned. Expected Capacity."),
        other => panic!("unexpected {other:?}"),
    }
    let cap = PrometheusDataResult::Capacity(CapacityData { capacities: NameMap::new() });
    match usage_from(Ok(cap)) {
        Err(AppError::DataFetch(m)) => assert_eq!(m, "Unexpected data type returned. Expected Usage."),
        other => panic!("unexpected {other:?}"),
    }
    let ok = usage_from(Ok(PrometheusDataResult::Usage(UsageData { source_data: NameMap::new() })));
    assert!(ok.is_ok());
    let passed = usage_from(Err(AppError::TimeOut));
    assert!(matches!(passed, Err(AppError::TimeOut)));
}

#[test]
fn prometheus_group_by_keeps_the_last_whole_value_of_each_group() {
    let mut result = vec![
        series(&[("account", "cca")], None),
        series(&[("account", "ccb")], None),
        series(&[("account", "cca")], None),
        series(&[("account", "ccc")], None),
        series(&[("other", "x")], None),
    ];
    result[0].value = Some((10, "4".to_string()));
    result[1].value = Some((10, "oops".to_string()));
    result[2].value = Some((10, "6".to_string()));
    result[4].value = Some((10, "1".to_string()));
    let out = group_by(&result, Grouping::Account);
    assert_eq!(out.len(), 1);
    assert_eq!(out.get("cca"), Some(6));
    assert_eq!(out.get("ccb"), None);
    assert_eq!(out.get("ccc"), None);
}

#[test]
fn interface_units_and_scales_name_the_same_steps() {
    let pairs = [
        (PrometheusTimeScale::Minutes, Unit::Minute),
        (PrometheusTimeScale::Hours, Unit::Hour),
        (PrometheusTimeScale::Days, Unit::Day),
        (PrometheusTimeScale::Weeks, Unit::Week),
        (PrometheusTimeScale::Years, Unit::Year),
    ];
    for (scale, unit) in pairs {
        assert_eq!(request_unit(scale), unit);
        assert_eq!(series_scale(unit), scale);
    }
}

#[test]
fn series_start_refuses_ranges_past_the_calendar() {
    let now: i64 = 1_700_000_000;
    assert_eq!(series_start(now, 2, PrometheusTimeScale::Hours), Some(now - 7200));
    assert_eq!(series_start(now, -1, PrometheusTimeScale::Hours), Some(now + 3600));
    assert_eq!(series_start(now, -2, PrometheusTimeScale::Days), None);
    assert_eq!(series_start(now, i64::MAX / 2, PrometheusTimeScale::Minutes), None);
    assert_eq!(series_start(i64::MAX - 10, 0, PrometheusTimeScale::Minutes), None);
}
