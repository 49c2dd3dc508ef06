use sqlparser::dialect::Dialect;
use sqlparser::parser::Parser;
use thumbor::dialect::{example_sql, TryDialect};

#[derive(Debug, Default)]
struct UrlDialect(TryDialect);

impl Dialect for UrlDialect {
    fn is_identifier_start(&self, ch: char) -> bool {
        self.0.is_identifier_start(ch)
    }

    fn is_identifier_part(&self, ch: char) -> bool {
        self.0.is_identifier_part(ch)
    }
}

#[test]
fn it_works() {
    let p = Parser::parse_sql(&UrlDialect::default(), &example_sql()).unwrap();
    println!("{:?}", p);
}

#[test]
fn identifier_rules() {
    let d = TryDialect;
    assert!(d.is_identifier_start('a'));
    assert!(d.is_identifier_start('Z'));
    assert!(d.is_identifier_start('_'));
    assert!(!d.is_identifier_start('1'));
    assert!(!d.is_identifier_start(':'));
    for ch in ":/?&=-_.".chars() {
        assert!(d.is_identifier_part(ch));
    }
    assert!(d.is_identifier_part('7'));
    assert!(!d.is_identifier_part(' '));
    assert!(!d.is_identifier_part(','));
}

#[test]
fn example_query_names_the_csv_url() {
    let sql = example_sql();
    assert!(sql.starts_with("SELECT location name,"));
    assert!(sql.contains(
        "FROM https://raw.githubusercontent.com/owid/covid-19-data/master/public/data/latest/owid-covid-latest.csv where"
    ));
    assert!(sql.ends_with("LIMIT 6 OFFSET 5"));
}
