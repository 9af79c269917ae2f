use fi_slurm::compound::{evaluate, parse_expression, tokenize, FeatureExpression, Token};
use fi_slurm::nodes::Node;
use fi_slurm::states::NodeState;

fn node(features: &[&str]) -> Node {
    Node {
        id: 0,
        name: "n1".to_string(),
        state: NodeState::Idle,
        cpus: 64,
        real_memory: 0,
        free_memory: 0,
        features: features.iter().map(|f| f.to_string()).collect(),
        active_features: Vec::new(),
        gpu_info: None,
        gres: String::new(),
        gres_used: String::new(),
        partitions: String::new(),
        reason: String::new(),
    }
}

fn show(e: &FeatureExpression) -> String {
    match e {
        FeatureExpression::Term(t) => t.clone(),
        FeatureExpression::Not(b) => format!("!{}", show(b)),
        FeatureExpression::And(v) => format!("({})", v.iter().map(show).collect::<Vec<_>>().join(" & ")),
        FeatureExpression::Or(v) => format!("({})", v.iter().map(show).collect::<Vec<_>>().join(" | ")),
    }
}

fn parsed(s: &str) -> String {
    show(&parse_expression(s).expect("should parse"))
}

fn refused(s: &str) -> String {
    match parse_expression(s) {
        Err(e) => e,
        Ok(e) => panic!("{s} parsed as {}", show(&e)),
    }
}

#[test]
fn compound_tokens() {
    let t = tokenize("gpu && !(icelake OR genoa)").unwrap();
    let names: Vec<String> = t
        .iter()
        .map(|t| match t {
            Token::Term(s) => s.clone(),
            Token::And => "AND".to_string(),
            Token::Or => "OR".to_string(),
            Token::Not => "NOT".to_string(),
            Token::LParen => "(".to_string(),
            Token::RParen => ")".to_string(),
            Token::Eof => "EOF".to_string(),
        })
        .collect();
    assert_eq!(names, vec!["gpu", "AND", "NOT", "(", "icelake", "OR", "genoa", ")"]);
}

#[test]
fn compound_single_operators_are_refused() {
    assert_eq!(tokenize("a & b").unwrap_err(), "Expected '&&' for AND operator, found single '&'");
    assert_eq!(tokenize("a |").unwrap_err(), "Expected '||' for OR operator, found single '|'");
    assert_eq!(tokenize("a # b").unwrap_err(), "Unexpected character: #");
}

#[test]
fn compound_and_binds_tighter_than_or() {
    assert_eq!(parsed("a || b && c"), "(a | (b & c))");
    assert_eq!(parsed("a and b or not c"), "((a & b) | !c)");
    assert_eq!(parsed("(a || b) && c"), "((a | b) & c)");
    assert_eq!(parsed("a && b && c"), "((a & b) & c)");
    assert_eq!(parsed("!a && b"), "(!a & b)");
}

#[test]
fn compound_malformed_expressions_are_refused() {
    assert_eq!(refused("a b"), "Unexpected token at end of expression.");
    assert_eq!(refused("(a"), "Expected ')' after expression");
    assert_eq!(refused("&& a"), "Expected a term, '!' or '(', but found And");
    assert_eq!(refused(""), "Expected a term, '!' or '(', but found Eof");
    assert_eq!(refused("a ||"), "Expected a term, '!' or '(', but found Eof");
}

#[test]
fn compound_evaluate_against_features() {
    let n = node(&["gpu", "icelake"]);
    assert!(!evaluate(&parse_expression("gpu && !icelake").unwrap(), &n, true));
    assert!(evaluate(&parse_expression("gpu && !skylake").unwrap(), &n, true));
    assert!(evaluate(&parse_expression("skylake || ice").unwrap(), &n, false));
    assert!(!evaluate(&parse_expression("skylake || ice").unwrap(), &n, true));
}
