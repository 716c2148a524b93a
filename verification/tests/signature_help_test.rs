use zed_core::signature_help::{
    lsp_to_proto_signature, proto_to_lsp_signature, Documentation, HighlightStyle,
    LspSignatureHelp, MarkupKind, ParameterInformation, ParameterLabel, SignatureHelp,
    SignatureInformation, WireLabel, WireParameter, WireSignature, WireSignatureHelp,
};

fn simple(label: &str) -> ParameterInformation {
    ParameterInformation {
        label: ParameterLabel::Simple(label.to_string()),
        documentation: None,
    }
}

fn signature(label: &str, parameters: Vec<ParameterInformation>) -> SignatureInformation {
    SignatureInformation {
        label: label.to_string(),
        documentation: None,
        parameters: Some(parameters),
        active_parameter: None,
    }
}

fn help(signatures: Vec<SignatureInformation>, active: Option<u32>, parameter: Option<u32>) -> LspSignatureHelp {
    LspSignatureHelp {
        signatures,
        active_signature: active,
        active_parameter: parameter,
    }
}

fn shown(help: LspSignatureHelp) -> Option<(String, Vec<(usize, usize, HighlightStyle)>)> {
    SignatureHelp::new(help).map(|help| {
        let highlights = help
            .highlights
            .iter()
            .map(|highlight| (highlight.start, highlight.end, highlight.style))
            .collect();
        (help.label, highlights)
    })
}

#[test]
fn active_parameter_is_bold() {
    let data = help(
        vec![signature("fn test(foo: u8, bar: &str)", vec![simple("foo: u8"), simple("bar: &str")])],
        Some(0),
        Some(1),
    );
    assert_eq!(
        shown(data),
        Some(("foo: u8, bar: &str".to_string(), vec![(9, 18, HighlightStyle::ExtraBold)]))
    );
}

#[test]
fn overloads_are_counted() {
    let data = help(
        vec![
            signature("a", vec![simple("x")]),
            signature("b", vec![simple("y: \u{20ac}"), simple("z")]),
        ],
        Some(1),
        Some(0),
    );
    assert_eq!(
        shown(data),
        Some((
            "y: \u{20ac}, z (+1 overload)".to_string(),
            vec![(0, 6, HighlightStyle::ExtraBold), (10, 23, HighlightStyle::Italic)]
        ))
    );
}

#[test]
fn labels_can_be_parts_of_the_signature() {
    let offsets = ParameterInformation {
        label: ParameterLabel::LabelOffsets(3, 6),
        documentation: None,
    };
    let data = help(vec![signature("f(\u{e9}abc)", vec![offsets])], None, Some(0));
    assert_eq!(
        shown(data),
        Some(("abc".to_string(), vec![(0, 3, HighlightStyle::ExtraBold)]))
    );
}

#[test]
fn nothing_to_show_without_parameters() {
    assert_eq!(shown(help(vec![], None, None)), None);
    assert_eq!(shown(help(vec![signature("f()", vec![])], None, None)), None);
    let mut without = signature("f()", vec![]);
    without.parameters = None;
    assert_eq!(shown(help(vec![without], Some(7), None)), None);
    // A number without a signature leads to the first one.
    let data = help(vec![signature("f(x)", vec![simple("x")])], Some(7), None);
    assert_eq!(shown(data), Some(("x".to_string(), vec![])));
}

#[test]
fn signatures_are_sent_and_read() {
    let mut data = signature(
        "f(x, y)",
        vec![
            ParameterInformation {
                label: ParameterLabel::LabelOffsets(2, 3),
                documentation: Some(Documentation::Text("first".to_string())),
            },
            simple("y"),
        ],
    );
    data.documentation = Some(Documentation::MarkupContent {
        kind: MarkupKind::Markdown,
        value: "*f*".to_string(),
    });
    data.active_parameter = Some(1);
    let original = help(vec![data], Some(0), Some(1));
    let before = format!("{:?}", original);
    let back = proto_to_lsp_signature(lsp_to_proto_signature(original));
    assert_eq!(format!("{:?}", back), before);
}

#[test]
fn parameters_without_label_are_left_out() {
    let wire = WireSignatureHelp {
        signatures: vec![WireSignature {
            label: "f".to_string(),
            documentation: None,
            parameters: vec![
                WireParameter {
                    label: None,
                    documentation: None,
                },
                WireParameter {
                    label: Some(WireLabel::Simple("x".to_string())),
                    documentation: None,
                },
            ],
            active_parameter: None,
        }],
        active_signature: None,
        active_parameter: None,
    };
    let lsp = proto_to_lsp_signature(wire);
    assert_eq!(lsp.signatures[0].parameters.as_ref().unwrap().len(), 1);
}
