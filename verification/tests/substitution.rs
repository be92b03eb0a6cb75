use d26run::subst::substitute;

fn pairs(p: &[(&str, &str)]) -> Vec<(String, String)> {
    p.iter().map(|(a, b)| (a.to_string(), b.to_string())).collect()
}

#[test]
fn replaces_every_occurrence() {
    let p = pairs(&[("X", "hello")]);
    assert_eq!(substitute(&p, "X X"), "hello hello");
    assert_eq!(substitute(&p, "aXb"), "ahellob");
    assert_eq!(substitute(&p, ""), "");
    assert_eq!(substitute(&p, "abc"), "abc");
}

#[test]
fn empty_names_are_skipped() {
    let p = pairs(&[("", "boom"), ("N", "1")]);
    assert_eq!(substitute(&p, "N+N"), "1+1");
}

#[test]
fn value_is_not_expanded_again() {
    let p = pairs(&[("N", "<N>")]);
    assert_eq!(substitute(&p, "N"), "<N>");
    assert_eq!(substitute(&p, "NN"), "<N><N>");
    let q = pairs(&[("AB", "A"), ("B", "x")]);
    // the inserted `A` does not join with the `B` that follows it
    assert_eq!(substitute(&q, "ABB"), "Ax");
}

#[test]
fn shorter_name_shadows_longer_one() {
    let p = pairs(&[("NAME", "long"), ("NA", "short")]);
    assert_eq!(substitute(&p, "NAME"), "shortME");
    let q = pairs(&[("NA", "short"), ("NAME", "long")]);
    assert_eq!(substitute(&q, "NAME"), "shortME");
}

#[test]
fn first_candidate_wins_when_two_complete_together() {
    let p = pairs(&[("b", "1"), ("ab", "2")]);
    assert_eq!(substitute(&p, "ab"), "a1");
    let q = pairs(&[("ab", "2"), ("b", "1")]);
    assert_eq!(substitute(&q, "ab"), "2");
}

#[test]
fn order_does_not_matter_without_common_endings() {
    let p = pairs(&[("USER", "root"), ("HOME", "/root"), ("ID", "7")]);
    let q = pairs(&[("ID", "7"), ("USER", "root"), ("HOME", "/root")]);
    for text in ["USER@HOME", "IDID", "xHOMEyUSERzID", "US ER", "HOMUSER"] {
        assert_eq!(substitute(&p, text), substitute(&q, text));
    }
    assert_eq!(substitute(&p, "HOMUSER"), "HOMroot");
}

#[test]
fn a_mismatch_starts_over_without_looking_back() {
    let p = pairs(&[("aab", "X")]);
    assert_eq!(substitute(&p, "aab"), "X");
    assert_eq!(substitute(&p, "aaab"), "aaab");
}

#[test]
fn works_on_characters_beyond_ascii() {
    let p = pairs(&[("ü", "ue"), ("€", "EUR")]);
    assert_eq!(substitute(&p, "grün 5€"), "gruen 5EUR");
}
