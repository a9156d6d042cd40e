use html_parse::depth::advance;
use html_parse::{
    parse_html, DepthChange, DepthIterator, HTMLPart, HTMLTag, HTMLTagKind, WithDepthIterator,
};

fn reported<T: DepthChange>(mut iter: DepthIterator<T>) -> (Vec<isize>, isize) {
    let mut depths = Vec::new();
    while let Some((_, depth)) = iter.next() {
        depths.push(depth);
    }
    (depths, iter.current_depth())
}

#[test]
fn kinds_move_the_depth_by_one_step() {
    assert_eq!(HTMLTagKind::Open.depth_change(), 1);
    assert_eq!(HTMLTagKind::Close.depth_change(), -1);
    assert_eq!(HTMLTagKind::Void.depth_change(), 0);
    assert_eq!(DepthChange::depth_change(&HTMLTagKind::Open), 1);
    assert_eq!(DepthChange::depth_change(&HTMLTagKind::Close), -1);
    assert_eq!(DepthChange::depth_change(&HTMLTagKind::Void), 0);
}

#[test]
fn tokens_move_the_depth_as_their_kind_does() {
    let tag = |kind| HTMLTag {
        kind,
        name: "a",
        attributes: vec![],
    };
    assert_eq!(tag(HTMLTagKind::Open).depth_change(), 1);
    assert_eq!(tag(HTMLTagKind::Close).depth_change(), -1);
    assert_eq!(tag(HTMLTagKind::Void).depth_change(), 0);
    assert_eq!(HTMLPart::Tag(tag(HTMLTagKind::Open)).depth_change(), 1);
    assert_eq!(HTMLPart::Tag(tag(HTMLTagKind::Close)).depth_change(), -1);
    assert_eq!(HTMLPart::Tag(tag(HTMLTagKind::Void)).depth_change(), 0);
    assert_eq!(HTMLPart::DocType.depth_change(), 0);
    assert_eq!(HTMLPart::Comment("<a>").depth_change(), 0);
    assert_eq!(HTMLPart::Text("<a>".into()).depth_change(), 0);
}

#[test]
fn one_step_of_the_fold() {
    // An opening token is reported before it takes effect, the others after.
    assert_eq!(advance(3, 1, false), (3, 4));
    assert_eq!(advance(3, 0, false), (3, 3));
    assert_eq!(advance(3, -1, false), (2, 2));
    assert_eq!(advance(3, 1, true), (3, 4));
    assert_eq!(advance(3, -1, true), (2, 2));
    // Only the clamped depth stops at 0.
    assert_eq!(advance(0, -1, false), (-1, -1));
    assert_eq!(advance(0, -1, true), (0, 0));
    assert_eq!(advance(-2, 1, false), (-2, -1));
    assert_eq!(advance(0, 0, true), (0, 0));
}

#[test]
fn closing_tag_is_reported_at_the_depth_of_its_opening_tag() {
    let parts = parse_html("<a><b>text<br></b><c></c></a>").unwrap();
    assert_eq!(
        reported(parts.with_depth()),
        (vec![0, 1, 2, 2, 1, 1, 1, 0], 0)
    );
}

#[test]
fn balanced_document_ends_at_depth_zero() {
    let text = "<!DOCTYPE html><html><head><meta charset=\"utf-8\"></head>\
                <body><p>a<em>b</em></p><hr /></body></html>";
    let signed = reported(parse_html(text).unwrap().with_depth());
    let clamped = reported(DepthIterator::new(parse_html(text).unwrap(), true));
    assert_eq!(signed.1, 0);
    assert_eq!(clamped.1, 0);
    // No prefix falls below 0, so clamping changes nothing.
    assert_eq!(signed.0, clamped.0);
    assert!(signed.0.iter().all(|depth| *depth >= 0));
}

#[test]
fn signed_depth_falls_below_zero_and_clamped_depth_does_not() {
    let text = "</a></b><c></c><d>";
    assert_eq!(
        reported(parse_html(text).unwrap().with_depth()),
        (vec![-1, -2, -2, -2, -2], -1)
    );
    assert_eq!(
        reported(DepthIterator::new(parse_html(text).unwrap(), true)),
        (vec![0, 0, 0, 0, 0], 1)
    );
}

#[test]
fn items_come_in_their_order() {
    let mut iter = vec![HTMLTagKind::Open, HTMLTagKind::Void, HTMLTagKind::Close].with_depth();
    assert_eq!(iter.next(), Some((HTMLTagKind::Open, 0)));
    assert_eq!(iter.current_depth(), 1);
    assert_eq!(iter.next(), Some((HTMLTagKind::Void, 1)));
    assert_eq!(iter.next(), Some((HTMLTagKind::Close, 0)));
    assert_eq!(iter.next(), None);
    assert_eq!(iter.next(), None);
    assert_eq!(iter.current_depth(), 0);
    let mut empty = Vec::<HTMLTagKind>::new().with_depth();
    assert_eq!(empty.next(), None);
}
