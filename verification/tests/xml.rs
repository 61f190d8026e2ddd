use raman_tools::common::{parse_number, Pair, PairParsingError};
use raman_tools::spe_rs::xml::{parse_tagname, trim_quotes, XMLTag, XmlError};

fn pairs(v: &[(&str, &str)]) -> Vec<(String, String)> {
    v.iter()
        .map(|(k, v)| (k.to_string(), v.to_string()))
        .collect()
}

#[test]
fn from_str_reads_a_small_document() {
    let xml = "junk<root a=\"1\" b><child x=y/><kid>te<!xt</kid>tail</root>ignored";
    let root = XMLTag::from_str(xml).unwrap();
    assert_eq!(root.name, "root");
    assert_eq!(root.parameters, pairs(&[("a", "1"), ("b", "")]));
    assert_eq!(root.contents, "tail");
    assert_eq!(root.children.len(), 2);
    assert_eq!(root.children[0].name, "child");
    assert_eq!(root.children[0].parameters, pairs(&[("x", "y/")]));
    assert_eq!(root.children[0].contents, "");
    assert_eq!(root.children[1].name, "kid");
    assert_eq!(root.children[1].contents, "te<!xt");
    assert!(root.children[1].children.is_empty());
}

#[test]
fn from_str_reports_how_the_text_ran_out() {
    assert_eq!(XMLTag::from_str("").err(), Some(XmlError::DataDepleted));
    assert_eq!(
        XMLTag::from_str("no tags").err(),
        Some(XmlError::DataDepleted)
    );
    assert_eq!(
        XMLTag::from_str("<a><b></b>").err(),
        Some(XmlError::DataDepleted)
    );
    assert_eq!(XMLTag::from_str("<a>").err(), Some(XmlError::DataDepleted));
    assert_eq!(XMLTag::from_str("<a/>").err(), Some(XmlError::DataDepleted));
    assert_eq!(XMLTag::from_str("<").err(), Some(XmlError::DataDepleted));
    assert_eq!(
        XMLTag::from_str("</a><b></b>").err(),
        Some(XmlError::StackDepleted)
    );
}

#[test]
fn from_str_returns_at_the_tag_that_closes_the_root() {
    let root = XMLTag::from_str("<a></wrong>").unwrap();
    assert_eq!(root.name, "a");
    let root = XMLTag::from_str("<a>x</a").unwrap();
    assert_eq!(root.contents, "x");
    let root = XMLTag::from_str("<A><b>1</b><b>2</b></A>").unwrap();
    assert_eq!(root.children.len(), 2);
    assert_eq!(root.children[1].contents, "2");
}

#[test]
fn build_index_lists_paths_from_the_root() {
    let xml = "<r><a><c>1</c></a><b n=\"2\" /><a><c>2</c><d/></a></r>";
    let root = XMLTag::from_str(xml).unwrap();
    let index = root.build_index();
    let keys: Vec<&str> = index.iter().map(|(k, _)| k.as_str()).collect();
    assert_eq!(keys, vec!["r/a", "r/a/d/", "r/a/c", "r/b"]);
    let c = index.iter().find(|(k, _)| k == "r/a/c").unwrap().1;
    assert_eq!(c.contents, "1");
    let a = index.iter().find(|(k, _)| k == "r/a").unwrap().1;
    assert_eq!(a.children.len(), 1);
    let b = index.iter().find(|(k, _)| k == "r/b").unwrap().1;
    assert_eq!(b.parameters, pairs(&[("n", "2")]));
}

#[test]
fn build_index_of_a_leaf_is_empty() {
    let root = XMLTag::from_str("<r></r>").unwrap();
    assert!(root.build_index().is_empty());
}

#[test]
fn parse_tagname_splits_name_and_parameters() {
    assert_eq!(parse_tagname("name"), ("name".to_string(), pairs(&[])));
    assert_eq!(
        parse_tagname("DataBlock type=\"Frame\" count=\"3\" /"),
        (
            "DataBlock".to_string(),
            pairs(&[("type", "Frame"), ("count", "3")])
        )
    );
    assert_eq!(
        parse_tagname("a k=1 k=\"2\" / later=3"),
        ("a".to_string(), pairs(&[("k", "2")]))
    );
    assert_eq!(
        parse_tagname("a  b=c=d"),
        ("a".to_string(), pairs(&[("", ""), ("b", "c=d")]))
    );
    assert_eq!(parse_tagname(""), ("".to_string(), pairs(&[])));
    assert_eq!(parse_tagname("a "), ("a".to_string(), pairs(&[("", "")])));
}

#[test]
fn trim_quotes_takes_one_pair_of_quotes() {
    assert_eq!(trim_quotes("\"abc\""), "abc");
    assert_eq!(trim_quotes("abc"), "abc");
    assert_eq!(trim_quotes("\"abc"), "\"abc");
    assert_eq!(trim_quotes("abc\""), "abc\"");
    assert_eq!(trim_quotes("\""), "\"");
    assert_eq!(trim_quotes("\"\""), "");
    assert_eq!(trim_quotes("\"\"x\"\""), "\"x\"");
    assert_eq!(trim_quotes(""), "");
    assert_eq!(trim_quotes("\"é\""), "é");
}

#[test]
fn pair_from_str_reads_two_numbers() {
    let p = Pair::<usize>::from_str("3,14").unwrap();
    assert_eq!((p.a, p.b), (3, 14));
    let p = Pair::<usize>::from_str("+3,014").unwrap();
    assert_eq!((p.a, p.b), (3, 14));
}

#[test]
fn pair_from_str_says_what_is_wrong() {
    assert_eq!(
        Pair::<usize>::from_str("3 14").err(),
        Some(PairParsingError::General)
    );
    assert_eq!(
        Pair::<usize>::from_str("").err(),
        Some(PairParsingError::General)
    );
    assert_eq!(
        Pair::<usize>::from_str("x,1").err(),
        Some(PairParsingError::A)
    );
    assert_eq!(
        Pair::<usize>::from_str(",1").err(),
        Some(PairParsingError::A)
    );
    assert_eq!(
        Pair::<usize>::from_str("-1,1").err(),
        Some(PairParsingError::A)
    );
    assert_eq!(
        Pair::<usize>::from_str("1, 2").err(),
        Some(PairParsingError::B)
    );
    assert_eq!(
        Pair::<usize>::from_str("1,2,3").err(),
        Some(PairParsingError::B)
    );
    assert_eq!(
        Pair::<usize>::from_str("1,").err(),
        Some(PairParsingError::B)
    );
}

#[test]
fn parse_number_knows_the_largest_number() {
    assert_eq!(parse_number("0"), Some(0));
    assert_eq!(parse_number("+"), None);
    assert_eq!(parse_number("++1"), None);
    assert_eq!(parse_number("1.5"), None);
    let max = usize::MAX.to_string();
    assert_eq!(parse_number(&max), Some(usize::MAX));
    assert_eq!(parse_number(&format!("000{}", max)), Some(usize::MAX));
    let mut over = max.clone();
    let last = over.pop().unwrap();
    over.push(char::from_digit(last.to_digit(10).unwrap() + 1, 10).unwrap());
    assert_eq!(parse_number(&over), None);
    assert_eq!(parse_number(&format!("{}0", max)), None);
}
