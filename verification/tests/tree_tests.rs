use h5nav::errors::H5Error;
use h5nav::listing::{parse_line, parse_shape_text, LineRecord};
use h5nav::path::H5Path;
use h5nav::shape::{classify, kind_tag, Resolution, ShapeKind};
use h5nav::tree::{H5Dataset, H5Group, H5Obj};

fn lines(v: &[&str]) -> Vec<String> {
    v.iter().map(|s| s.to_string()).collect()
}

#[test]
fn parse_preorder_listing_builds_the_tree() {
    // The backtracking scenario: /a holds {b, d}, /a/b holds {c}, /a/d empty.
    let root = H5Group::parse(&lines(&[
        "/ Group",
        "/a Group",
        "/a/b Group",
        "/a/b/c Dataset {SCALAR}",
        "/a/d Group",
    ]))
    .unwrap();
    let a = root.locate_group(&H5Path::from_str("/a")).unwrap();
    assert_eq!(a.children.len(), 2);
    let b = root.locate_group(&H5Path::from_str("/a/b")).unwrap();
    assert_eq!(b.children.len(), 1);
    let d = root.locate_group(&H5Path::from_str("/a/d")).unwrap();
    assert_eq!(d.children.len(), 0);
    assert!(root.is_group(&H5Path::from_str("/a/b")));
    assert!(!root.is_group(&H5Path::from_str("/a/b/c")));
    match H5Obj::Group(root).locate(&H5Path::from_str("/a/b/c")).unwrap() {
        H5Obj::Dataset(ds) => {
            assert_eq!(ds.name, "c");
            assert!(ds.shape.is_empty());
        }
        H5Obj::Group(_) => panic!("expected a dataset"),
    }
}

#[test]
fn parse_orphan_group_is_structural_violation() {
    let r = H5Group::parse(&lines(&["/ Group", "/x/y Group"]));
    assert_eq!(r.unwrap_err(), H5Error::StructuralViolation);
}

#[test]
fn parse_bad_shape_is_malformed() {
    let r = H5Group::parse(&lines(&["/ Group", "/a Group", "/a/x Dataset {3, x, 224}"]));
    assert_eq!(r.unwrap_err(), H5Error::MalformedShape);
}

#[test]
fn parse_ignores_non_record_lines() {
    let root = H5Group::parse(&lines(&[
        "HDF5 \"sample.h5\" {",
        "/ Group",
        "/a Group",
        "}",
    ]))
    .unwrap();
    assert_eq!(root.children.len(), 1);
}

#[test]
fn parse_dataset_shape_carries_over() {
    let root = H5Group::parse(&lines(&[
        "/ Group",
        "/data Group",
        "/data/x Dataset {100, 3, 64, 64}",
    ]))
    .unwrap();
    match root.locate_group(&H5Path::from_str("/data")).unwrap().children.first().unwrap() {
        H5Obj::Dataset(ds) => {
            assert_eq!(ds.shape, vec![100, 3, 64, 64]);
            // Rank 4 with trailing dimension 64: not 1, 3 or 4, so
            // hyperspectral, not grayscale.
            assert_eq!(classify(&ds.shape), ShapeKind::Hyperspectral);
            assert_eq!(ds.format(), "Hyper");
        }
        H5Obj::Group(_) => panic!("expected a dataset"),
    }
}

#[test]
fn shape_text_scalar_is_empty_shape() {
    assert_eq!(parse_shape_text("{SCALAR}").unwrap(), Vec::<usize>::new());
}

#[test]
fn shape_text_dimensions() {
    assert_eq!(parse_shape_text("{3, 224, 224}").unwrap(), vec![3, 224, 224]);
}

#[test]
fn shape_text_empty_braces_malformed() {
    assert_eq!(parse_shape_text("{}").unwrap_err(), H5Error::MalformedShape);
}

#[test]
fn shape_text_bad_token_malformed() {
    assert_eq!(parse_shape_text("{3, x, 224}").unwrap_err(), H5Error::MalformedShape);
}

#[test]
fn shape_text_missing_space_malformed() {
    assert_eq!(parse_shape_text("{3,224}").unwrap_err(), H5Error::MalformedShape);
}

#[test]
fn parse_line_group_record() {
    match parse_line("/a/b Group").unwrap().unwrap() {
        LineRecord::GroupLine(p) => {
            assert!(p.absolute);
            assert_eq!(p.comps, vec!["a".to_string(), "b".to_string()]);
        }
        _ => panic!("expected a group record"),
    }
}

#[test]
fn parse_line_dataset_record() {
    match parse_line("/d Dataset {2, 3}").unwrap().unwrap() {
        LineRecord::DatasetLine(p, dims) => {
            assert_eq!(p.comps, vec!["d".to_string()]);
            assert_eq!(dims, vec![2, 3]);
        }
        _ => panic!("expected a dataset record"),
    }
}

#[test]
fn parse_line_skips_non_records() {
    assert!(parse_line("whatever else").unwrap().is_none());
    assert!(parse_line("").unwrap().is_none());
    assert!(parse_line("/ Group").unwrap().is_none());
}

#[test]
fn classify_table() {
    assert_eq!(classify(&vec![]), ShapeKind::Parameter);
    assert_eq!(classify(&vec![7]), ShapeKind::Scalar);
    assert_eq!(classify(&vec![4, 5]), ShapeKind::Vector);
    assert_eq!(classify(&vec![9, 4, 5]), ShapeKind::Grayscale);
    assert_eq!(classify(&vec![9, 4, 5, 1]), ShapeKind::Grayscale);
    assert_eq!(classify(&vec![9, 4, 5, 3]), ShapeKind::Color);
    assert_eq!(classify(&vec![9, 4, 5, 4]), ShapeKind::Rgbd);
    assert_eq!(classify(&vec![9, 4, 5, 7]), ShapeKind::Hyperspectral);
    assert_eq!(classify(&vec![100, 64, 64, 3]), ShapeKind::Color);
}

#[test]
fn kind_tags() {
    assert_eq!(kind_tag(ShapeKind::Parameter), "Param");
    assert_eq!(kind_tag(ShapeKind::Scalar), "Scalar");
    assert_eq!(kind_tag(ShapeKind::Vector), "Vec");
    assert_eq!(kind_tag(ShapeKind::Grayscale), "Gray");
    assert_eq!(kind_tag(ShapeKind::Color), "Color");
    assert_eq!(kind_tag(ShapeKind::Rgbd), "RGBD");
    assert_eq!(kind_tag(ShapeKind::Hyperspectral), "Hyper");
}

#[test]
fn resolutions_by_rank() {
    let ds = H5Dataset { name: "x".to_string(), shape: vec![100, 3, 64, 48] };
    assert_eq!(ds.resolution(), Some(Resolution { width: 64, height: 3 }));
    assert_eq!(ds.resolution_single_image(), None);
    assert_eq!(ds.resolution_batch_images(), Some(Resolution { width: 64, height: 3 }));
    assert_eq!(ds.batch_count(), Some(100));

    let one = H5Dataset { name: "y".to_string(), shape: vec![64, 48, 3] };
    assert_eq!(one.resolution(), Some(Resolution { width: 3, height: 48 }));
    assert_eq!(one.resolution_single_image(), Some(Resolution { width: 48, height: 64 }));
    assert_eq!(one.resolution_batch_images(), Some(Resolution { width: 3, height: 48 }));

    let deep = H5Dataset { name: "w".to_string(), shape: vec![2, 100, 3, 64, 48] };
    assert_eq!(deep.resolution(), None, "rank five is not displayable");

    let scalar = H5Dataset { name: "z".to_string(), shape: vec![] };
    assert_eq!(scalar.resolution(), None);
    assert_eq!(scalar.resolution_single_image(), None);
    assert_eq!(scalar.resolution_batch_images(), None);
    assert_eq!(scalar.batch_count(), None);
}

#[test]
fn resolution_to_string() {
    let r = Resolution { width: 64, height: 3 };
    assert_eq!(r.to_string(), "64x3");
}

#[test]
fn locate_not_found() {
    let root = H5Group::parse(&lines(&["/ Group", "/a Group"])).unwrap();
    let err = root.locate_group(&H5Path::from_str("/missing")).unwrap_err();
    assert_eq!(err, H5Error::NotFound);
}

#[test]
fn locate_absolute_from_non_root_is_invalid() {
    let root = H5Group::parse(&lines(&["/ Group", "/a Group"])).unwrap();
    let a = root.locate_group(&H5Path::from_str("/a")).unwrap();
    let err = a.locate_group(&H5Path::from_str("/a")).unwrap_err();
    assert_eq!(err, H5Error::InvalidOperation);
}

#[test]
fn locate_relative_from_inner_group() {
    let root =
        H5Group::parse(&lines(&["/ Group", "/a Group", "/a/b Group"])).unwrap();
    let a = root.locate_group(&H5Path::from_str("/a")).unwrap();
    let b = a.locate_group(&H5Path::from_str("b")).unwrap();
    assert_eq!(b.name, "b");
}

#[test]
fn locate_group_mut_inserts_in_place() {
    let mut root = H5Group::parse(&lines(&["/ Group", "/a Group"])).unwrap();
    {
        let a = root.locate_group_mut(&H5Path::from_str("/a"));
        a.insert_child(H5Obj::Dataset(H5Dataset { name: "n".to_string(), shape: vec![8] }));
    }
    let a = root.locate_group(&H5Path::from_str("/a")).unwrap();
    assert_eq!(a.children.len(), 1);
    assert!(root.is_group(&H5Path::from_str("/a")));
    assert!(!root.is_group(&H5Path::from_str("/a/n")));
}

#[test]
fn insert_child_replaces_same_name() {
    let mut g = H5Group::new("g".to_string());
    g.insert_child(H5Obj::Dataset(H5Dataset { name: "n".to_string(), shape: vec![1] }));
    g.insert_child(H5Obj::Dataset(H5Dataset { name: "n".to_string(), shape: vec![2] }));
    assert_eq!(g.children.len(), 1);
    match &g.children[0] {
        H5Obj::Dataset(d) => assert_eq!(d.shape, vec![2]),
        H5Obj::Group(_) => panic!("expected a dataset"),
    }
}

#[test]
fn obj_kind_queries() {
    let g = H5Obj::Group(H5Group::new("g".to_string()));
    let d = H5Obj::Dataset(H5Dataset { name: "d".to_string(), shape: vec![] });
    assert!(g.is_group() && !g.is_dataset());
    assert!(d.is_dataset() && !d.is_group());
    assert_eq!(g.name(), "g");
    assert_eq!(d.name(), "d");
}

#[test]
fn obj_locate_group_none_on_dataset() {
    let root = H5Group::parse(&lines(&[
        "/ Group",
        "/a Group",
        "/a/x Dataset {SCALAR}",
    ]))
    .unwrap();
    let obj = H5Obj::Group(root);
    assert!(obj.locate_group(&H5Path::from_str("/a")).is_some());
    assert!(obj.locate_group(&H5Path::from_str("/a/x")).is_none());
    assert!(obj.locate_group(&H5Path::from_str("/nope")).is_none());
}

#[test]
fn error_tags() {
    assert_eq!(H5Error::IoError.tag(), "io error");
    assert_eq!(H5Error::MalformedShape.tag(), "malformed shape");
    assert_eq!(H5Error::StructuralViolation.tag(), "structural violation");
    assert_eq!(H5Error::NotFound.tag(), "not found");
    assert_eq!(H5Error::InvalidOperation.tag(), "invalid operation");
    assert_eq!(H5Error::Unavailable.tag(), "unavailable");
}
