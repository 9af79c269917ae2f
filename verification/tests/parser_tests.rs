use fi_slurm::hostlist::{compress_hostlist, parse_slurm_hostlist};
use fi_slurm::tres::{parse_tres_str, tres_str_fits};

#[test]
fn parser_test_simple_list() {
    assert_eq!(parse_slurm_hostlist("n01,n02,n03"), vec!["n01", "n02", "n03"]);
}

#[test]
fn parser_test_single_node() {
    assert_eq!(parse_slurm_hostlist("login-a"), vec!["login-a"]);
}

#[test]
fn parser_test_simple_range() {
    assert_eq!(parse_slurm_hostlist("n[1-3]"), vec!["n1", "n2", "n3"]);
}

#[test]
fn parser_test_padded_range() {
    assert_eq!(parse_slurm_hostlist("n[01-03]"), vec!["n01", "n02", "n03"]);
    assert_eq!(parse_slurm_hostlist("gpu[007-009]"), vec!["gpu007", "gpu008", "gpu009"]);
}

#[test]
#[should_panic]
fn parser_test_mixed_padded_range() {
    assert_eq!(parse_slurm_hostlist("n[01-03]"), vec!["n01", "n02", "n03"]);
    assert_eq!(parse_slurm_hostlist("gpu[07-009]"), vec!["gpu07", "gpu008", "gpu009"]);
}

#[test]
fn parser_test_mixed_padded_range_joined() {
    assert_eq!(
        parse_slurm_hostlist("n[001-003],gpu[07-09]"),
        vec!["n001", "n002", "n003", "gpu07", "gpu08", "gpu09"]
    );
}

#[test]
fn parser_test_mixed_padded_range_spaced() {
    assert_eq!(
        parse_slurm_hostlist("n[001-003], gpu[07-09]"),
        vec!["n001", "n002", "n003", "gpu07", "gpu08", "gpu09"]
    );
}

#[test]
fn parser_test_mixed_ranges() {
    assert_eq!(parse_slurm_hostlist("c[1,3-5,10]"), vec!["c1", "c3", "c4", "c5", "c10"]);
}

#[test]
fn parser_test_prefix_and_suffix() {
    assert_eq!(
        parse_slurm_hostlist("node-[08-10]-ib"),
        vec!["node-08-ib", "node-09-ib", "node-10-ib"]
    );
}

#[test]
fn parser_test_multiple_expressions() {
    assert_eq!(
        parse_slurm_hostlist("login01,node[01-02],gpu01"),
        vec!["login01", "node01", "node02", "gpu01"]
    );
}

#[test]
fn test_compress_simple_consecutive() {
    let nodes = vec!["n01".to_string(), "n02".to_string(), "n03".to_string()];
    assert_eq!(compress_hostlist(&nodes), "n[01-03]");
}

#[test]
fn test_compress_single_node() {
    let nodes = vec!["login01".to_string()];
    assert_eq!(compress_hostlist(&nodes), "login01");
}

#[test]
fn test_compress_multiple_groups() {
    let nodes = vec![
        "n001".to_string(),
        "n002".to_string(),
        "n003".to_string(),
        "gpu07".to_string(),
        "gpu08".to_string(),
        "gpu09".to_string(),
    ];
    assert_eq!(compress_hostlist(&nodes), "gpu[07-09],n[001-003]");
}

#[test]
fn test_compress_non_consecutive() {
    let nodes = vec![
        "c1".to_string(),
        "c3".to_string(),
        "c4".to_string(),
        "c5".to_string(),
        "c10".to_string(),
    ];
    assert_eq!(compress_hostlist(&nodes), "c[1,3-5,10]");
}

#[test]
fn test_compress_with_standalone_nodes() {
    let nodes = vec!["n01".to_string(), "login".to_string(), "n02".to_string()];
    assert_eq!(compress_hostlist(&nodes), "login,n[01-02]");
}

#[test]
fn test_compress_prefix_and_suffix() {
    let nodes = vec!["node-08-ib".to_string(), "node-09-ib".to_string(), "node-10-ib".to_string()];
    assert_eq!(compress_hostlist(&nodes), "node-[08-10]-ib");
}

#[test]
fn test_compress_mixed_padding() {
    let nodes = vec!["n1".to_string(), "n2".to_string(), "n03".to_string(), "n04".to_string()];
    assert_eq!(compress_hostlist(&nodes), "n[1-2,03-04]");
}

#[test]
fn test_simple_tres_string() {
    let result_map = parse_tres_str("cpu=512,mem=4000G,node=4,billing=512");
    assert_eq!(result_map.get("cpu"), Some(512));
    assert_eq!(result_map.get("mem"), Some(4000 * 1024 * 1024 * 1024));
    assert_eq!(result_map.get("node"), Some(4));
    assert_eq!(result_map.get("billing"), Some(512));
}

#[test]
fn test_tres_with_megabyte_suffix() {
    let result_map = parse_tres_str("cpu=96,mem=1538000M,node=1,billing=96");
    assert_eq!(result_map.get("cpu"), Some(96));
    assert_eq!(result_map.get("mem"), Some(1538000 * 1024 * 1024));
}

#[test]
fn test_tres_with_gpu_gres() {
    let result_map = parse_tres_str("cpu=32,mem=192G,node=1,billing=32,gres/gpu=8,gres/gpu:h100_pcie=8");
    assert_eq!(result_map.get("mem"), Some(192 * 1024 * 1024 * 1024));
    assert_eq!(result_map.get("gres/gpu"), Some(8));
    assert_eq!(result_map.get("gres/gpu:h100_pcie"), Some(8));
    assert_eq!(result_map.get("cpu"), Some(32));
}

#[test]
fn test_tres_with_single_gpu_type() {
    let result_map = parse_tres_str("cpu=10,mem=180T,node=1,billing=10,gres/gpu=1");
    assert_eq!(result_map.get("mem"), Some(180 * 1024 * 1024 * 1024 * 1024));
    assert_eq!(result_map.get("gres/gpu"), Some(1));
    assert_eq!(result_map.get("gres/gpu:a100-sxm4-40gb"), None);
}

#[test]
fn test_empty_string() {
    let result_map = parse_tres_str("");
    assert!(result_map.is_empty());
}

#[test]
fn tres_counts_that_overflow_when_scaled_are_caught() {
    assert!(tres_str_fits("cpu=512,mem=4000G,node=4"));
    assert!(tres_str_fits("cpu=x,mem,=3"));
    assert!(tres_str_fits("mem=16777215T"));
    assert!(!tres_str_fits("cpu=1,mem=16777216T"));
    assert!(!tres_str_fits("mem=18446744073709551615K"));
    assert!(tres_str_fits("mem=18446744073709551615"));
}

#[test]
fn compress_hostlist_ignores_input_order() {
    let names = |xs: &[&str]| xs.iter().map(|s| s.to_string()).collect::<Vec<String>>();
    let a = names(&["c10", "login", "c3", "gpu2", "c5", "c4", "gpu1", "c1"]);
    let b = names(&["c1", "gpu1", "c4", "c5", "gpu2", "c3", "login", "c10"]);
    assert_eq!(compress_hostlist(&a), compress_hostlist(&b));
    assert_eq!(compress_hostlist(&a), "c[1,3-5,10],gpu[1-2],login");
}

#[test]
fn parse_slurm_hostlist_reads_back_a_compressed_list() {
    let names: Vec<String> = ["gpu-a07-ib", "n3", "login", "gpu-a08-ib", "n001", "n2", "n3", "x9y"]
        .iter()
        .map(|s| s.to_string())
        .collect();
    let text = compress_hostlist(&names);
    let mut back = parse_slurm_hostlist(&text);
    let mut want = names.clone();
    back.sort();
    want.sort();
    assert_eq!(back, want);
}
