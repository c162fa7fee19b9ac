use nodewise::{parse_criterion, Criterion, UtilsError};

#[test]
fn parse_criterion_reads_both_tags() {
    assert_eq!(parse_criterion("AIC"), Ok(Criterion::Aic));
    assert_eq!(parse_criterion("BIC"), Ok(Criterion::Bic));
}

#[test]
fn parse_criterion_rejects_everything_else() {
    for tag in ["", "aic", "bic", "AIC ", " BIC", "AICc", "CIC", "AI", "ABC", "BIA", "ÄIC"] {
        assert_eq!(parse_criterion(tag), Err(UtilsError::InvalidCriterion));
    }
}

#[test]
fn tag_round_trips() {
    assert_eq!(Criterion::Aic.tag(), "AIC");
    assert_eq!(Criterion::Bic.tag(), "BIC");
    assert_eq!(parse_criterion(Criterion::Aic.tag()), Ok(Criterion::Aic));
    assert_eq!(parse_criterion(Criterion::Bic.tag()), Ok(Criterion::Bic));
}
