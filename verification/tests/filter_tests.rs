use fi_slurm::filter::{Alternative, FeatureQuery};

fn parse(args: &[&str]) -> FeatureQuery {
    let args: Vec<String> = args.iter().map(|a| a.to_string()).collect();
    FeatureQuery::parse(&args).expect("should parse")
}

fn labels(query: &FeatureQuery) -> Vec<String> {
    query.alternatives().iter().map(Alternative::label).collect()
}

#[test]
fn ampersand_and_comma_both_mean_and() {
    assert_eq!(labels(&parse(&["icelake&gpu"])), ["icelake&gpu"]);
    assert_eq!(labels(&parse(&["icelake,gpu"])), ["icelake&gpu"]);
    assert_eq!(labels(&parse(&["icelake, gpu"])), ["icelake&gpu"]);
}

#[test]
fn a_bar_and_separate_arguments_both_mean_or() {
    assert_eq!(labels(&parse(&["icelake|genoa"])), ["icelake", "genoa"]);
    assert_eq!(labels(&parse(&["icelake", "genoa"])), ["icelake", "genoa"]);
}

#[test]
fn and_binds_tighter_than_or() {
    assert_eq!(labels(&parse(&["icelake&gpu|genoa&gpu"])), ["icelake&gpu", "genoa&gpu"]);
}

#[test]
fn no_arguments_selects_everything() {
    assert!(parse(&[]).is_empty());
}

#[test]
fn allocation_only_syntax_is_refused() {
    for arg in ["[rack1|rack2]", "graphics*4", "(knl&hemi)"] {
        let err = FeatureQuery::parse(&[arg.to_string()]).expect_err("should be refused");
        assert!(err.contains("allocation"), "{arg}: {err}");
    }
}

#[test]
fn a_dangling_operator_is_refused() {
    for arg in ["icelake&", "&icelake", "icelake&&gpu", "icelake,,gpu", "|"] {
        FeatureQuery::parse(&[arg.to_string()]).expect_err("should be refused");
    }
}
