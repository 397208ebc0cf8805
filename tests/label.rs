use snapfaas::label::{Clause, Component, DCLabel};

fn clause(ps: &[&str]) -> Clause {
    Clause::new(ps.iter().map(|p| p.to_string()).collect())
}

fn formula(cs: &[&[&str]]) -> Component {
    Component::DCFormula(cs.iter().map(|c| clause(c)).collect())
}

/// The clauses of a component as sorted sets, `None` for `False`.
fn sets(c: &Component) -> Option<Vec<Vec<String>>> {
    match c {
        Component::DCFalse => None,
        Component::DCFormula(v) => {
            let mut out: Vec<Vec<String>> = v
                .iter()
                .map(|c| {
                    let mut ps = c.0.clone();
                    ps.sort();
                    ps.dedup();
                    ps
                })
                .collect();
            out.sort();
            out.dedup();
            Some(out)
        }
    }
}

fn strs(cs: &[&[&str]]) -> Option<Vec<Vec<String>>> {
    let mut out: Vec<Vec<String>> = cs
        .iter()
        .map(|c| {
            let mut ps: Vec<String> = c.iter().map(|p| p.to_string()).collect();
            ps.sort();
            ps
        })
        .collect();
    out.sort();
    Some(out)
}

#[test]
fn join_drops_superset_clause() {
    let j = formula(&[&["a", "b"]]).join(&formula(&[&["a"]]));
    assert_eq!(sets(&j), strs(&[&["a"]]));
}

#[test]
fn join_unions_unrelated_clauses() {
    let j = formula(&[&["a"], &["b", "c"]]).join(&formula(&[&["d"], &["b", "c"]]));
    assert_eq!(sets(&j), strs(&[&["a"], &["b", "c"], &["d"]]));
    if let Component::DCFormula(v) = &j {
        assert_eq!(v.len(), 3);
    }
}

#[test]
fn join_with_false_is_false() {
    assert!(formula(&[&["a"]]).join(&Component::dc_false()).is_false());
    assert!(Component::dc_false().join(&formula(&[])).is_false());
}

#[test]
fn lub_false_side_absorbs() {
    let a = DCLabel::new(Component::dc_false(), formula(&[&["x"]]));
    let b = DCLabel::new(formula(&[&["y"]]), formula(&[&["z"]]));
    let l = a.lub(&b);
    assert!(l.secrecy.is_false());
    assert_eq!(sets(&l.integrity), strs(&[&["x"], &["z"]]));
}

#[test]
fn lub_idempotent_and_public_identity() {
    let l = DCLabel::new(formula(&[&["a", "b"], &["c"]]), formula(&[&["d"]]));
    let ll = l.lub(&l);
    assert_eq!(sets(&ll.secrecy), sets(&l.secrecy));
    assert_eq!(sets(&ll.integrity), sets(&l.integrity));
    let lp = l.lub(&DCLabel::public());
    assert_eq!(sets(&lp.secrecy), sets(&l.secrecy));
    assert_eq!(sets(&lp.integrity), sets(&l.integrity));
}

#[test]
fn lub_commutes_and_associates() {
    let a = DCLabel::new(formula(&[&["a", "b"]]), formula(&[]));
    let b = DCLabel::new(formula(&[&["a"]]), Component::dc_false());
    let c = DCLabel::new(formula(&[&["c"], &["a", "d"]]), formula(&[&["e"]]));
    let ab = a.lub(&b);
    let ba = b.lub(&a);
    assert_eq!(sets(&ab.secrecy), sets(&ba.secrecy));
    assert_eq!(sets(&ab.integrity), sets(&ba.integrity));
    let left = ab.lub(&c);
    let right = a.lub(&b.lub(&c));
    assert_eq!(sets(&left.secrecy), sets(&right.secrecy));
    assert_eq!(sets(&left.secrecy), strs(&[&["a"], &["c"]]));
    assert!(left.integrity.is_false() && right.integrity.is_false());
}

#[test]
fn join_result_has_no_strict_superset() {
    let j = formula(&[&["a", "b", "c"], &["b"]]).join(&formula(&[&["b", "d"], &["e"], &["a", "c"]]));
    let s = sets(&j).unwrap();
    for x in &s {
        for y in &s {
            let sub = x.iter().all(|p| y.contains(p));
            assert!(!(sub && x != y));
        }
    }
    assert_eq!(Some(s), strs(&[&["a", "c"], &["b"], &["e"]]));
}

#[test]
fn clause_implies_is_subset() {
    assert!(clause(&["a"]).implies(&clause(&["a", "b"])));
    assert!(!clause(&["a", "c"]).implies(&clause(&["a", "b"])));
    assert!(clause(&[]).implies(&clause(&["a"])));
    assert!(clause(&["b", "a"]).contains(&"a".to_string()));
}

#[test]
fn public_label_is_empty_conjunction() {
    let p = DCLabel::public();
    assert_eq!(sets(&p.secrecy), Some(vec![]));
    assert_eq!(sets(&p.integrity), Some(vec![]));
}
