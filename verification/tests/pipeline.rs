use svg_panelize::length::LengthError;
use svg_panelize::node::{filter_children, Elem, Node};
use svg_panelize::panelize::{panelize, PanelError};
use svg_panelize::viewbox::ViewBoxError;

fn element(name: &str) -> Node {
    Node::Element(Elem {
        name: String::from(name),
        prefix: None,
        namespace: None,
        namespaces: None,
        attrs: vec![(String::from("w"), String::from("1"))],
        children: vec![],
    })
}

fn rat_f64(offset: &svg_panelize::grid::Rat) -> f64 {
    let v = offset.num as f64 / offset.den as f64;
    if offset.neg {
        -v
    } else {
        v
    }
}

fn transform(
    group: &svg_panelize::grid::Group,
    xoff: &svg_panelize::grid::Rat,
    yoff: &svg_panelize::grid::Rat,
) -> (f64, f64) {
    (group.col as f64 * rat_f64(xoff), group.row as f64 * rat_f64(yoff))
}

#[test]
fn identity_grid() {
    let children = vec![element("rect")];
    let out = panelize(
        Some("50mm"),
        Some("50mm"),
        Some("0 0 100 100"),
        &children,
        1,
        1,
        None,
        None,
    )
    .unwrap();
    assert_eq!(out.width, "50mm");
    assert_eq!(out.height, "50mm");
    assert_eq!(out.view_box, "0 0 100 100");
    assert_eq!(out.groups.len(), 1);
    assert_eq!(out.groups[0].col, 0);
    assert_eq!(out.groups[0].row, 0);
    assert_eq!(out.groups[0].children, vec![element("rect")]);
    let (sx, sy) = transform(&out.groups[0], &out.x_offset_vb, &out.y_offset_vb);
    assert_eq!(format!("translate({},{})", sx, sy), "translate(0,0)");
}

#[test]
fn cartesian_grid() {
    let children = vec![element("rect"), element("circle")];
    let out = panelize(
        Some("50mm"),
        Some("50mm"),
        Some("0 0 100 100"),
        &children,
        2,
        3,
        Some("10"),
        Some("20"),
    )
    .unwrap();
    assert_eq!(out.groups.len(), 6);
    let cols: Vec<u32> = out.groups.iter().map(|g| g.col).collect();
    let rows: Vec<u32> = out.groups.iter().map(|g| g.row).collect();
    assert_eq!(cols, vec![0, 0, 0, 1, 1, 1]);
    assert_eq!(rows, vec![0, 1, 2, 0, 1, 2]);
    // 10 mm of spacing is 20 view-box units, 20 mm is 40.
    let mut shifts = Vec::new();
    for g in &out.groups {
        let x = g.col as f64 * (out.x_offset_vb.num as f64 / out.x_offset_vb.den as f64);
        let y = g.row as f64 * (out.y_offset_vb.num as f64 / out.y_offset_vb.den as f64);
        shifts.push((x, y));
    }
    let expected = vec![
        (0.0, 0.0),
        (0.0, 40.0),
        (0.0, 80.0),
        (20.0, 0.0),
        (20.0, 40.0),
        (20.0, 80.0),
    ];
    assert_eq!(shifts, expected);
    for g in &out.groups {
        assert_eq!(g.children, vec![element("rect"), element("circle")]);
    }
}

#[test]
fn metadata_never_replicated() {
    let children = vec![
        element("title"),
        element("rect"),
        element("desc"),
        Node::Text(String::from("stray")),
        Node::Comment(String::from("note")),
        element("path"),
    ];
    let out = panelize(
        Some("50mm"),
        Some("50mm"),
        Some("0 0 100 100"),
        &children,
        2,
        2,
        None,
        None,
    )
    .unwrap();
    for g in &out.groups {
        assert_eq!(g.children, vec![element("rect"), element("path")]);
        for child in &g.children {
            match child {
                Node::Element(e) => {
                    assert_ne!(e.name, "title");
                    assert_ne!(e.name, "desc");
                }
                _ => panic!("non-element in a group"),
            }
        }
    }
}

#[test]
fn filter_keeps_order_and_drops_metadata() {
    let children = vec![
        Node::CData(String::from("blob")),
        element("title"),
        element("a"),
        element("desc"),
        element("b"),
        Node::Pi(String::from("target"), None),
    ];
    assert_eq!(filter_children(&children), vec![element("a"), element("b")]);
}

#[test]
fn canvas_scaling() {
    let children = vec![element("rect")];
    let out = panelize(
        Some("50mm"),
        Some("2.5cm"),
        Some("0 0 100 50"),
        &children,
        3,
        2,
        None,
        None,
    )
    .unwrap();
    assert_eq!(out.width, "150mm");
    assert_eq!(out.height, "50mm");
    assert_eq!(out.view_box, "0 0 300 100");
}

#[test]
fn fractional_scaling_is_exact() {
    let children = vec![element("rect")];
    let out = panelize(
        Some("10.5mm"),
        Some("0.1mm"),
        Some("-3 -4 7 9"),
        &children,
        2,
        3,
        None,
        None,
    )
    .unwrap();
    assert_eq!(out.width, "21mm");
    assert_eq!(out.height, "0.3mm");
    assert_eq!(out.view_box, "-3 -4 14 27");
}

#[test]
fn negative_width_flips_spacing() {
    let children = vec![element("rect")];
    let out = panelize(
        Some("-50mm"),
        Some("50mm"),
        Some("0 0 100 100"),
        &children,
        2,
        1,
        Some("10"),
        None,
    )
    .unwrap();
    assert_eq!(out.width, "-100mm");
    // 10 * 100 / -50 is -20 view-box units per column.
    assert!(out.x_offset_vb.neg);
    assert_eq!(out.x_offset_vb.num, 20 * out.x_offset_vb.den);
    assert_eq!(rat_f64(&out.x_offset_vb), -20.0);
}

#[test]
fn two_column_strip() {
    let children = vec![element("rect")];
    let out = panelize(
        Some("50mm"),
        Some("50mm"),
        Some("0 0 100 100"),
        &children,
        2,
        1,
        Some("10"),
        None,
    )
    .unwrap();
    // 10 mm of column spacing is 10 * 100 / 50 = 20 view-box units.
    assert_eq!(out.x_offset_vb.num, 20 * out.x_offset_vb.den);
    assert_eq!(out.groups.len(), 2);
    let mut labels = Vec::new();
    for g in &out.groups {
        let (sx, sy) = transform(g, &out.x_offset_vb, &out.y_offset_vb);
        labels.push(format!("translate({},{})", sx, sy));
    }
    assert_eq!(labels, vec!["translate(0,0)", "translate(20,0)"]);
    assert_eq!(out.width, "100mm");
    assert_eq!(out.view_box, "0 0 200 100");
}

#[test]
fn first_failure_is_reported() {
    let children = vec![element("rect")];
    let vb = Some("0 0 100 100");
    assert_eq!(
        panelize(None, Some("50mm"), vb, &children, 1, 1, None, None),
        Err(PanelError::MissingWidth)
    );
    assert_eq!(
        panelize(Some("5px"), Some("50mm"), vb, &children, 1, 1, None, None),
        Err(PanelError::BadWidth(LengthError::BadSuffix))
    );
    assert_eq!(
        panelize(Some("xmm"), Some("50mm"), vb, &children, 1, 1, None, None),
        Err(PanelError::BadWidth(LengthError::BadNumber))
    );
    assert_eq!(
        panelize(Some("50mm"), None, vb, &children, 1, 1, None, None),
        Err(PanelError::MissingHeight)
    );
    assert_eq!(
        panelize(Some("50mm"), Some("5"), vb, &children, 1, 1, None, None),
        Err(PanelError::BadHeight(LengthError::BadSuffix))
    );
    assert_eq!(
        panelize(Some("50mm"), Some("50mm"), None, &children, 1, 1, None, None),
        Err(PanelError::MissingViewBox)
    );
    assert_eq!(
        panelize(Some("50mm"), Some("50mm"), Some("0 0 ? 100"), &children, 1, 1, None, None),
        Err(PanelError::BadViewBox(ViewBoxError::BadInt))
    );
    assert_eq!(
        panelize(Some("50mm"), Some("50mm"), Some("0 0 100"), &children, 1, 1, None, None),
        Err(PanelError::BadViewBox(ViewBoxError::WrongCount))
    );
    assert_eq!(
        panelize(Some("0mm"), Some("50mm"), vb, &children, 1, 1, None, None),
        Err(PanelError::ZeroWidth)
    );
    assert_eq!(
        panelize(Some("50mm"), Some("0.0mm"), vb, &children, 1, 1, None, None),
        Err(PanelError::ZeroHeight)
    );
}
