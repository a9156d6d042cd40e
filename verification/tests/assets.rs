use html_parse::assets::{keep_relative_paths, uri_attribute_values};
use html_parse::parse::ParseErrorKind;
use html_parse::standard_attributes::is_uri_attribute;
use html_parse::{find_relative_paths, parse_html, ParseHTMLError};

#[test]
fn uri_attributes_are_href_and_src() {
    assert!(is_uri_attribute("href"));
    assert!(is_uri_attribute("src"));
    for name in ["", "hre", "hrefs", "HREF", "Src", "source", "action", "data"] {
        assert!(!is_uri_attribute(name), "{:?}", name);
    }
}

#[test]
fn uri_values_come_in_document_order() {
    let parts = parse_html(
        "<link rel=\"stylesheet\" href=\"./styles.css\"><img alt=\"src\" src='a.png' src=b.png>\
         <a href>x</a><!-- href=\"c\" --><script src=\"https://example.net/s.js\"></script>",
    )
    .unwrap();
    assert_eq!(
        uri_attribute_values(&parts),
        vec!["./styles.css", "a.png", "b.png", "https://example.net/s.js"]
    );
}

#[test]
fn kept_paths_are_relative_and_no_address() {
    let values = vec!["a", "b", "c", "d"];
    assert_eq!(
        keep_relative_paths(
            &values,
            &vec![false, true, false, true],
            &vec![true, true, false, false]
        ),
        vec!["a"]
    );
    assert_eq!(
        keep_relative_paths(&values, &vec![false; 4], &vec![true; 4]),
        values
    );
    assert_eq!(
        keep_relative_paths(&vec![], &vec![], &vec![]),
        Vec::<&str>::new()
    );
}

#[test]
fn relative_paths_of_a_document() {
    assert_eq!(
        find_relative_paths(
            "<html><link href=\"./styles.css\"><a href=\"https://example.net/x\">x</a>\
             <img src=\"img/a.png\"><a href=\"mailto:someone@example.net\">m</a>\
             <a href=\"page.html\" title=\"other.html\">p</a></html>"
        ),
        Ok(vec!["./styles.css", "img/a.png", "page.html"])
    );
}

#[test]
fn absolute_addresses_are_left_out() {
    // Each of these reads as an address, so none is a path to copy, though
    // each would pass for a relative path.
    assert_eq!(
        find_relative_paths(
            "<a href=\"http://example.net\" src=\"data:text/plain,hi\" href=\"file:///etc/hosts\" \
             href=\"x:y\">"
        ),
        Ok(vec![])
    );
}

#[test]
fn rooted_paths_are_left_out() {
    let found = find_relative_paths("<a href=\"/etc/hosts\" src=\"etc/hosts\">").unwrap();
    assert!(found.contains(&"etc/hosts"));
    assert_eq!(
        found.contains(&"/etc/hosts"),
        std::path::Path::new("/etc/hosts").is_relative()
    );
}

#[test]
fn no_paths_without_a_document() {
    assert_eq!(
        find_relative_paths("<a href=\"x\"><"),
        Err(ParseHTMLError {
            remainder: "<".to_string(),
            kind: ParseErrorKind::Eof
        })
    );
    assert_eq!(find_relative_paths(""), Ok(vec![]));
}
