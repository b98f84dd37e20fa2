use snarky::error::{PolyError, QAPError, SnarkyError};

#[test]
fn error_values_keep_their_fields() {
    let q = QAPError::create("l is not < m", "constraints", 7, 102);
    assert_eq!(q.message, "l is not < m");
    assert_eq!(q.code, 102);
    let p = PolyError::create("degree", "polynomial", 3, 201);
    assert_eq!(p.code, 201);
    assert_eq!(p.line, 3);
    let s = SnarkyError::create("Could not create QAP", "l is not < m", "main", 1, 102);
    assert_eq!(s.cause, "l is not < m");
    assert_eq!(s.code, 102);
    assert!(s.describe().contains("Could not create QAP"));
}
