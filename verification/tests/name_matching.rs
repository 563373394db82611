use ultira::names::match_names;

#[test]
fn name_matching() {
    assert!(match_names("Németh Marcell", "Németh M"));
    assert!(match_names("Németh Márton", "Németh M"));
    assert!(!match_names("Németh Dominik", "Németh M"));
    assert!(match_names("Németh Marcell", "Ma"));
    assert!(!match_names("Németh Márton", "Ma"));
}

#[test]
fn name_matching_word_subsequence() {
    assert!(match_names("Kovács János Péter", "Kovács Péter"));
    assert!(!match_names("Kovács János Péter", "Péter Kovács"));
    assert!(match_names("Anna", "Anna"));
    assert!(match_names("Anna", ""));
    assert!(!match_names("", "Anna"));
    assert!(match_names("  Anna   Best ", "An B"));
}

#[test]
fn matching_names_prefers_exact_binding() {
    let mut eval = ultira::evaluation::Evaluation::new(ultira::Scalar { bits: 0 });
    for name in ["Anna", "Annabel", "Bertalan"] {
        let r = eval.change(&ultira::change::Change::AddPlayer(ultira::change::AddPlayer {
            name: name.to_string(),
            rating: ultira::Scalar { bits: 0 },
        }));
        assert!(r.is_ok());
    }
    // "Anna" is bound exactly, so only it is reported.
    let exact = eval.matching_names("Anna");
    assert_eq!(exact, vec!["Anna".to_string()]);
    // "An" is not bound: every matching name is reported, in table order.
    let partial = eval.matching_names("An");
    assert_eq!(partial, vec!["Anna".to_string(), "Annabel".to_string()]);
    let none: Vec<String> = eval.matching_names("Cecil");
    assert!(none.is_empty());
}
