use std::collections::HashMap;

use dispatcher::html::parse;
use html5ever::rcdom::NodeData::Element;
use html5ever::rcdom::RcDom;
use html5ever::serialize::{serialize, SerializeOpts};
use html5ever::tendril::TendrilSink;
use html5ever::tree_builder::TreeBuilderOpts;
use html5ever::{parse_document, ParseOpts};

#[test]
fn test01() {
    let v: Vec<usize> = vec![10, 0, 2, 2, 41, 15, 61, 2, 2, 0];

    let mut avg_sum: usize = 0;

    let mut mode = HashMap::<usize, usize>::new();

    for &item in &v {
        avg_sum += item;
        let c = mode.entry(item).or_insert(0);
        *c += 1;
    }

    let mode = mode;

    let mut mode_max: (&usize, &usize) = (&0, &0);
    for entry in &mode {
        if entry.1 > mode_max.1 {
            mode_max = entry;
        }
    }

    println!(
        "{:?} avg: {} median: {} mode: {}",
        v,
        avg_sum / v.len(),
        v[v.len() / 2 as usize],
        mode_max.0
    );
    assert!(true)
}

#[test]
fn test_parse_document() {
    println!("{}", parse().unwrap());
}

#[test]
fn test_modify() {
    let opts = ParseOpts {
        tree_builder: TreeBuilderOpts { drop_doctype: true, ..Default::default() },
        ..Default::default()
    };
    let data = "<!DOCTYPE html><html><body><a href=\"foo\"></a></body></html>";
    let dom = parse_document(RcDom::default(), opts)
        .from_utf8()
        .read_from(&mut data.as_bytes())
        .unwrap();

    let html = &dom.document.children.borrow()[0];
    let body = &html.children.borrow()[1];

    {
        let a = &body.children.borrow()[0];
        if let Element { ref attrs, .. } = a.data {
            let mut attrs = attrs.borrow_mut();
            attrs[0].value.push_tendril(&From::from("#anchor"));
        }
    }

    let mut bytes = vec![];
    serialize(&mut bytes, &dom.document, SerializeOpts::default()).unwrap();
    let result = String::from_utf8(bytes).unwrap();
    println!("{}", result);
}
