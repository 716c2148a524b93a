//! What an editor shows of the function whose arguments are being written.

use vstd::prelude::*;
use crate::text::{
    byte_len, chars_of, copy_text, decimal, joined, lemma_byte_len_concat, push_decimal, text_len,
    text_of,
};

verus! {

/// The label of a parameter: a text, or a range of characters in the label of its
/// signature.
#[derive(Debug)]
pub enum ParameterLabel {
    Simple(String),
    LabelOffsets(u32, u32),
}

#[derive(Copy, Clone, Debug, PartialEq, Eq, Structural)]
pub enum MarkupKind {
    PlainText,
    Markdown,
}

#[derive(Debug)]
pub enum Documentation {
    Text(String),
    MarkupContent { kind: MarkupKind, value: String },
}

#[derive(Debug)]
pub struct ParameterInformation {
    pub label: ParameterLabel,
    pub documentation: Option<Documentation>,
}

#[derive(Debug)]
pub struct SignatureInformation {
    pub label: String,
    pub documentation: Option<Documentation>,
    pub parameters: Option<Vec<ParameterInformation>>,
    pub active_parameter: Option<u32>,
}

/// What a language server says of a function.
#[derive(Debug)]
pub struct LspSignatureHelp {
    pub signatures: Vec<SignatureInformation>,
    pub active_signature: Option<u32>,
    pub active_parameter: Option<u32>,
}

#[derive(Debug)]
pub enum WireLabel {
    Simple(String),
    LabelOffsets { start: u32, end: u32 },
}

#[derive(Debug)]
pub enum WireContent {
    Value(String),
    MarkupContent { is_markdown: bool, value: String },
}

#[derive(Debug)]
pub struct WireDocumentation {
    pub content: Option<WireContent>,
}

#[derive(Debug)]
pub struct WireParameter {
    pub label: Option<WireLabel>,
    pub documentation: Option<WireDocumentation>,
}

#[derive(Debug)]
pub struct WireSignature {
    pub label: String,
    pub documentation: Option<WireDocumentation>,
    pub parameters: Vec<WireParameter>,
    pub active_parameter: Option<u32>,
}

/// What a peer is told of a function.
#[derive(Debug)]
pub struct WireSignatureHelp {
    pub signatures: Vec<WireSignature>,
    pub active_signature: Option<u32>,
    pub active_parameter: Option<u32>,
}

/// How a part of a label stands out.
#[derive(Copy, Clone, Debug, PartialEq, Eq, Structural)]
pub enum HighlightStyle {
    ExtraBold,
    Italic,
}

/// A part of a label, by its bytes.
#[derive(Copy, Clone, Debug, PartialEq, Eq, Structural)]
pub struct Highlight {
    pub start: usize,
    pub end: usize,
    pub style: HighlightStyle,
}

/// What is shown of a function: its parameters.
#[derive(Debug)]
pub struct SignatureHelp {
    pub label: String,
    pub highlights: Vec<Highlight>,
    pub original_data: LspSignatureHelp,
}

/// Which signature is shown: the active one, or else the first.
pub open spec fn shown_signature(help: LspSignatureHelp) -> Option<int> {
    if help.signatures@.len() == 0 {
        None
    } else if help.active_signature is Some && help.active_signature->0 < help.signatures@.len() {
        Some(help.active_signature->0 as int)
    } else {
        Some(0)
    }
}

/// The text of a parameter.
pub open spec fn parameter_text(signature: Seq<char>, label: ParameterLabel) -> Seq<char> {
    match label {
        ParameterLabel::Simple(text) => text@,
        ParameterLabel::LabelOffsets(start, end) => {
            let from: int = if start > signature.len() {
                signature.len() as int
            } else {
                start as int
            };
            let to: int = if end > signature.len() {
                signature.len() as int
            } else {
                end as int
            };
            signature.subrange(from, to)
        },
    }
}

/// The texts of some parameters.
pub open spec fn parameter_texts(
    signature: Seq<char>,
    parameters: Seq<ParameterInformation>,
) -> Seq<Seq<char>> {
    Seq::new(parameters.len(), |i: int| parameter_text(signature, parameters[i].label))
}

/// What tells that there are more signatures.
pub open spec fn overload_text(count: nat) -> Seq<char> {
    "(+"@ + decimal((count - 1) as nat) + " overload)"@
}

/// Where a parameter starts in the label, in bytes.
pub open spec fn parameter_start(labels: Seq<Seq<char>>, i: int) -> nat {
    if i == 0 {
        0
    } else {
        byte_len(joined(labels.take(i), ", "@) + ", "@)
    }
}

/// What is shown of a function.
pub open spec fn help_label(labels: Seq<Seq<char>>, count: nat) -> Seq<char> {
    if count >= 2 {
        joined(labels, ", "@) + seq![' '] + overload_text(count)
    } else {
        joined(labels, ", "@)
    }
}

/// How the parts of the label stand out: the active parameter, and that there are more
/// signatures.
pub open spec fn help_highlights(
    labels: Seq<Seq<char>>,
    count: nat,
    active_parameter: Option<u32>,
) -> Seq<Highlight> {
    let active: Seq<Highlight> = if active_parameter is Some && active_parameter->0
        < labels.len() {
        let i: int = active_parameter->0 as int;
        let start = parameter_start(labels, i);
        seq![
            Highlight {
                start: start as usize,
                end: (start + byte_len(labels[i])) as usize,
                style: HighlightStyle::ExtraBold,
            },
        ]
    } else {
        Seq::empty()
    };
    if count >= 2 {
        let start = byte_len(joined(labels, ", "@)) + 1;
        active.push(
            Highlight {
                start: start as usize,
                end: (start + byte_len(overload_text(count))) as usize,
                style: HighlightStyle::Italic,
            },
        )
    } else {
        active
    }
}

/// The offsets of the labels of a signature are in order.
pub open spec fn offsets_in_order(signature: SignatureInformation) -> bool {
    signature.parameters matches Some(parameters) ==> forall|i: int|
        0 <= i < parameters@.len() ==> ((#[trigger] parameters@[i]).label matches
            ParameterLabel::LabelOffsets(start, end) ==> start <= end)
}

/// The labels that are shown of a function, if there are any.
pub open spec fn shown_labels(help: LspSignatureHelp) -> Option<Seq<Seq<char>>> {
    match shown_signature(help) {
        Some(i) => match help.signatures@[i].parameters {
            Some(parameters) => if parameters@.len() == 0 {
                None
            } else {
                Some(parameter_texts(help.signatures@[i].label@, parameters@))
            },
            None => None,
        },
        None => None,
    }
}

fn label_text(signature: &Vec<char>, label: &ParameterLabel) -> (r: String)
    requires
        *label matches ParameterLabel::LabelOffsets(start, end) ==> start <= end,
    ensures
        r@ == parameter_text(signature@, *label),
{
    match label {
        ParameterLabel::Simple(text) => copy_text(text.as_str()),
        ParameterLabel::LabelOffsets(start, end) => {
            let len: usize = signature.len();
            let from: usize = if *start as u64 > len as u64 {
                len
            } else {
                *start as usize
            };
            let to: usize = if *end as u64 > len as u64 {
                len
            } else {
                *end as usize
            };
            text_of(signature, from, to)
        },
    }
}

impl SignatureHelp {
    /// What is shown of a function. Nothing where no signature, or no parameter, is
    /// known. The offsets of labels must be in order.
    pub fn new(help: LspSignatureHelp) -> (r: Option<SignatureHelp>)
        requires
            shown_signature(help) matches Some(i) ==> offsets_in_order(help.signatures@[i]),
        ensures
            match shown_labels(help) {
                Some(labels) => r is Some && {
                    let shown = r->0;
                    let count = help.signatures@.len();
                    &&& shown.label@ == help_label(labels, count)
                    &&& shown.highlights@ == help_highlights(labels, count, help.active_parameter)
                    &&& shown.original_data == help
                },
                None => r is None,
            },
    {
        let count: usize = help.signatures.len();
        if count == 0 {
            return None;
        }
        let mut shown: usize = 0;
        if let Some(active) = help.active_signature {
            if (active as u64) < count as u64 {
                shown = active as usize;
            }
        }
        let signature = &help.signatures[shown];
        let parameters = match &signature.parameters {
            Some(parameters) => parameters,
            None => {
                return None;
            },
        };
        if parameters.len() == 0 {
            return None;
        }
        let chars = chars_of(signature.label.as_str());
        let mut label = String::new();
        let mut highlights: Vec<Highlight> = Vec::new();
        let ghost labels = parameter_texts(signature.label@, parameters@);
        let active: u64 = match help.active_parameter {
            Some(active) => active as u64,
            None => u64::MAX,
        };
        let mut i: usize = 0;
        assert(label@ =~= joined(labels.take(0), ", "@));
        assert(highlights@ =~= Seq::empty());
        while i < parameters.len()
            invariant
                i <= parameters@.len(),
                chars@ == signature.label@,
                labels == parameter_texts(signature.label@, parameters@),
                signature.parameters == Some(*parameters),
                offsets_in_order(*signature),
                active == (match help.active_parameter {
                    Some(active) => active as u64,
                    None => u64::MAX,
                }),
                label@ == joined(labels.take(i as int), ", "@),
                highlights@ == (if help.active_parameter is Some && help.active_parameter->0 < i {
                    help_highlights(labels, 1, help.active_parameter)
                } else {
                    Seq::empty()
                }),
            decreases parameters.len() - i,
        {
            let ghost next = labels.take(i + 1);
            let ghost before = label@;
            proof {
                assert(next.drop_last() =~= labels.take(i as int));
                assert(next.last() == labels[i as int]);
            }
            if i > 0 {
                label.push_str(", ");
            }
            let ghost with_separator = label@;
            let start: usize = text_len(label.as_str());
            let text = label_text(&chars, &parameters[i].label);
            assert(text@ == labels[i as int]);
            label.push_str(text.as_str());
            let end: usize = text_len(label.as_str());
            proof {
                lemma_byte_len_concat(with_separator, text@);
                if i == 0 {
                    assert(with_separator =~= Seq::<char>::empty());
                    crate::text::lemma_byte_len_bounds(with_separator);
                    assert(label@ =~= text@);
                    assert(next =~= seq![text@]);
                }
                assert(label@ =~= joined(next, ", "@));
            }
            if i as u64 == active {
                highlights.push(Highlight { start, end, style: HighlightStyle::ExtraBold });
                assert(highlights@ =~= help_highlights(labels, 1, help.active_parameter));
            }
            i = i + 1;
        }
        assert(labels.take(i as int) =~= labels);
        assert(highlights@ =~= help_highlights(labels, 1, help.active_parameter));
        if count >= 2 {
            let ghost before = label@;
            label.push(' ');
            let ghost spaced = label@;
            let start: usize = text_len(label.as_str());
            let mut suffix = copy_text("(+");
            push_decimal(&mut suffix, (count - 1) as u64);
            suffix.push_str(" overload)");
            assert(suffix@ =~= overload_text(count as nat));
            label.push_str(suffix.as_str());
            let end: usize = text_len(label.as_str());
            proof {
                lemma_byte_len_concat(spaced, suffix@);
                crate::text::lemma_byte_len_push(before, ' ');
                assert(spaced =~= before.push(' '));
                assert(label@ =~= help_label(labels, count as nat));
            }
            highlights.push(Highlight { start, end, style: HighlightStyle::Italic });
            assert(highlights@ =~= help_highlights(labels, count as nat, help.active_parameter));
        }
        Some(SignatureHelp { label, highlights, original_data: help })
    }
}

/// Documentation as a peer is told of it.
pub open spec fn wire_documentation(documentation: Documentation) -> WireDocumentation {
    WireDocumentation {
        content: Some(
            match documentation {
                Documentation::Text(text) => WireContent::Value(text),
                Documentation::MarkupContent { kind, value } => WireContent::MarkupContent {
                    is_markdown: kind == MarkupKind::Markdown,
                    value,
                },
            },
        ),
    }
}

/// Documentation, if there is any, as a peer is told of it.
pub open spec fn wire_optional(documentation: Option<Documentation>) -> Option<WireDocumentation> {
    match documentation {
        Some(documentation) => Some(wire_documentation(documentation)),
        None => None,
    }
}

/// A parameter as a peer is told of it.
pub open spec fn wire_parameter(parameter: ParameterInformation) -> WireParameter {
    WireParameter {
        label: Some(
            match parameter.label {
                ParameterLabel::Simple(text) => WireLabel::Simple(text),
                ParameterLabel::LabelOffsets(start, end) => WireLabel::LabelOffsets { start, end },
            },
        ),
        documentation: wire_optional(parameter.documentation),
    }
}

/// The parameters of a signature, none where they are not known.
pub open spec fn known_parameters(parameters: Option<Vec<ParameterInformation>>) -> Seq<
    ParameterInformation,
> {
    match parameters {
        Some(parameters) => parameters@,
        None => Seq::empty(),
    }
}

/// Whether a peer is told of a signature as it should be.
pub open spec fn is_wire_signature(signature: SignatureInformation, wire: WireSignature) -> bool {
    wire.label == signature.label && wire.documentation == wire_optional(signature.documentation)
        && wire.parameters@ == known_parameters(signature.parameters).map_values(
        |parameter: ParameterInformation| wire_parameter(parameter),
    ) && wire.active_parameter == signature.active_parameter
}

/// Whether a peer is told of a function as it should be.
pub open spec fn is_wire_help(help: LspSignatureHelp, wire: WireSignatureHelp) -> bool {
    wire.active_signature == help.active_signature && wire.active_parameter
        == help.active_parameter && wire.signatures@.len() == help.signatures@.len() && forall|
        i: int,
    |
        0 <= i < help.signatures@.len() ==> is_wire_signature(
            help.signatures@[i],
            #[trigger] wire.signatures@[i],
        )
}

/// Documentation as a peer told of it.
pub open spec fn lsp_documentation(wire: WireDocumentation) -> Option<Documentation> {
    match wire.content {
        Some(WireContent::Value(text)) => Some(Documentation::Text(text)),
        Some(WireContent::MarkupContent { is_markdown, value }) => Some(
            Documentation::MarkupContent {
                kind: if is_markdown {
                    MarkupKind::Markdown
                } else {
                    MarkupKind::PlainText
                },
                value,
            },
        ),
        None => None,
    }
}

/// Documentation, if there is any, as a peer told of it.
pub open spec fn lsp_optional(wire: Option<WireDocumentation>) -> Option<Documentation> {
    match wire {
        Some(wire) => lsp_documentation(wire),
        None => None,
    }
}

/// A parameter as a peer told of it, if it has a label.
pub open spec fn lsp_parameter(wire: WireParameter) -> Option<ParameterInformation> {
    match wire.label {
        Some(label) => Some(
            ParameterInformation {
                label: match label {
                    WireLabel::Simple(text) => ParameterLabel::Simple(text),
                    WireLabel::LabelOffsets { start, end } => ParameterLabel::LabelOffsets(
                        start,
                        end,
                    ),
                },
                documentation: lsp_optional(wire.documentation),
            },
        ),
        None => None,
    }
}

/// The parameters as a peer told of them. Those without a label are left out.
pub open spec fn lsp_parameters(wires: Seq<WireParameter>) -> Seq<ParameterInformation>
    decreases wires.len(),
{
    if wires.len() == 0 {
        Seq::empty()
    } else {
        let before = lsp_parameters(wires.drop_last());
        match lsp_parameter(wires.last()) {
            Some(parameter) => before.push(parameter),
            None => before,
        }
    }
}

/// Whether a signature is what a peer told of it.
pub open spec fn is_lsp_signature(wire: WireSignature, signature: SignatureInformation) -> bool {
    signature.label == wire.label && signature.documentation == lsp_optional(wire.documentation)
        && signature.parameters is Some && signature.parameters->0@ == lsp_parameters(
        wire.parameters@,
    ) && signature.active_parameter == wire.active_parameter
}

/// Whether a function is what a peer told of it.
pub open spec fn is_lsp_help(wire: WireSignatureHelp, help: LspSignatureHelp) -> bool {
    help.active_signature == wire.active_signature && help.active_parameter
        == wire.active_parameter && help.signatures@.len() == wire.signatures@.len() && forall|
        i: int,
    |
        0 <= i < wire.signatures@.len() ==> is_lsp_signature(
            wire.signatures@[i],
            #[trigger] help.signatures@[i],
        )
}

fn lsp_to_proto_documentation(documentation: &Documentation) -> (r: WireDocumentation)
    ensures
        r == wire_documentation(*documentation),
{
    WireDocumentation {
        content: Some(
            match documentation {
                Documentation::Text(text) => WireContent::Value(text.clone()),
                Documentation::MarkupContent { kind, value } => WireContent::MarkupContent {
                    is_markdown: *kind == MarkupKind::Markdown,
                    value: value.clone(),
                },
            },
        ),
    }
}

fn optional_to_proto(documentation: &Option<Documentation>) -> (r: Option<WireDocumentation>)
    ensures
        r == wire_optional(*documentation),
{
    match documentation {
        Some(documentation) => Some(lsp_to_proto_documentation(documentation)),
        None => None,
    }
}

fn parameter_to_proto(parameter: &ParameterInformation) -> (r: WireParameter)
    ensures
        r == wire_parameter(*parameter),
{
    WireParameter {
        label: Some(
            match &parameter.label {
                ParameterLabel::Simple(text) => WireLabel::Simple(text.clone()),
                ParameterLabel::LabelOffsets(start, end) => WireLabel::LabelOffsets {
                    start: *start,
                    end: *end,
                },
            },
        ),
        documentation: optional_to_proto(&parameter.documentation),
    }
}

fn signature_to_proto(signature: &SignatureInformation) -> (r: WireSignature)
    ensures
        is_wire_signature(*signature, r),
{
    let mut parameters: Vec<WireParameter> = Vec::new();
    let ghost f = |parameter: ParameterInformation| wire_parameter(parameter);
    if let Some(known) = &signature.parameters {
        let mut i: usize = 0;
        while i < known.len()
            invariant
                i <= known@.len(),
                parameters@.len() == i,
                forall|k: int| 0 <= k < i ==> #[trigger] parameters@[k] == wire_parameter(known@[k]),
            decreases known.len() - i,
        {
            parameters.push(parameter_to_proto(&known[i]));
            i = i + 1;
        }
    }
    assert(parameters@ =~= known_parameters(signature.parameters).map_values(f));
    WireSignature {
        label: signature.label.clone(),
        documentation: optional_to_proto(&signature.documentation),
        parameters,
        active_parameter: signature.active_parameter,
    }
}

/// Tells a peer of a function.
pub fn lsp_to_proto_signature(lsp_help: LspSignatureHelp) -> (r: WireSignatureHelp)
    ensures
        is_wire_help(lsp_help, r),
{
    let mut signatures: Vec<WireSignature> = Vec::new();
    let mut i: usize = 0;
    while i < lsp_help.signatures.len()
        invariant
            i <= lsp_help.signatures@.len(),
            signatures@.len() == i,
            forall|k: int|
                0 <= k < i ==> is_wire_signature(
                    lsp_help.signatures@[k],
                    #[trigger] signatures@[k],
                ),
        decreases lsp_help.signatures.len() - i,
    {
        signatures.push(signature_to_proto(&lsp_help.signatures[i]));
        i = i + 1;
    }
    WireSignatureHelp {
        signatures,
        active_signature: lsp_help.active_signature,
        active_parameter: lsp_help.active_parameter,
    }
}

fn proto_to_lsp_documentation(wire: &WireDocumentation) -> (r: Option<Documentation>)
    ensures
        r == lsp_documentation(*wire),
{
    match &wire.content {
        Some(WireContent::Value(text)) => Some(Documentation::Text(text.clone())),
        Some(WireContent::MarkupContent { is_markdown, value }) => Some(
            Documentation::MarkupContent {
                kind: if *is_markdown {
                    MarkupKind::Markdown
                } else {
                    MarkupKind::PlainText
                },
                value: value.clone(),
            },
        ),
        None => None,
    }
}

fn optional_to_lsp(wire: &Option<WireDocumentation>) -> (r: Option<Documentation>)
    ensures
        r == lsp_optional(*wire),
{
    match wire {
        Some(wire) => proto_to_lsp_documentation(wire),
        None => None,
    }
}

fn parameter_to_lsp(wire: &WireParameter) -> (r: Option<ParameterInformation>)
    ensures
        r == lsp_parameter(*wire),
{
    match &wire.label {
        Some(label) => Some(
            ParameterInformation {
                label: match label {
                    WireLabel::Simple(text) => ParameterLabel::Simple(text.clone()),
                    WireLabel::LabelOffsets { start, end } => ParameterLabel::LabelOffsets(
                        *start,
                        *end,
                    ),
                },
                documentation: optional_to_lsp(&wire.documentation),
            },
        ),
        None => None,
    }
}

fn signature_to_lsp(wire: &WireSignature) -> (r: SignatureInformation)
    ensures
        is_lsp_signature(*wire, r),
{
    let mut parameters: Vec<ParameterInformation> = Vec::new();
    let mut i: usize = 0;
    let ghost all = wire.parameters@;
    assert(parameters@ =~= lsp_parameters(all.take(0)));
    while i < wire.parameters.len()
        invariant
            i <= wire.parameters@.len(),
            all == wire.parameters@,
            parameters@ == lsp_parameters(all.take(i as int)),
        decreases wire.parameters.len() - i,
    {
        proof {
            let next = all.take(i + 1);
            assert(next.drop_last() =~= all.take(i as int));
            assert(next.last() == all[i as int]);
        }
        match parameter_to_lsp(&wire.parameters[i]) {
            Some(parameter) => {
                parameters.push(parameter);
            },
            None => {},
        }
        i = i + 1;
    }
    assert(all.take(i as int) =~= all);
    SignatureInformation {
        label: wire.label.clone(),
        documentation: optional_to_lsp(&wire.documentation),
        parameters: Some(parameters),
        active_parameter: wire.active_parameter,
    }
}

/// A function as a peer told of it.
pub fn proto_to_lsp_signature(proto_help: WireSignatureHelp) -> (r: LspSignatureHelp)
    ensures
        is_lsp_help(proto_help, r),
{
    let mut signatures: Vec<SignatureInformation> = Vec::new();
    let mut i: usize = 0;
    while i < proto_help.signatures.len()
        invariant
            i <= proto_help.signatures@.len(),
            signatures@.len() == i,
            forall|k: int|
                0 <= k < i ==> is_lsp_signature(
                    proto_help.signatures@[k],
                    #[trigger] signatures@[k],
                ),
        decreases proto_help.signatures.len() - i,
    {
        signatures.push(signature_to_lsp(&proto_help.signatures[i]));
        i = i + 1;
    }
    LspSignatureHelp {
        signatures,
        active_signature: proto_help.active_signature,
        active_parameter: proto_help.active_parameter,
    }
}

proof fn lemma_parameters_round_trip(parameters: Seq<ParameterInformation>)
    ensures
        lsp_parameters(
            parameters.map_values(|parameter: ParameterInformation| wire_parameter(parameter)),
        ) == parameters,
    decreases parameters.len(),
{
    let f = |parameter: ParameterInformation| wire_parameter(parameter);
    let wires = parameters.map_values(f);
    if parameters.len() > 0 {
        let init = parameters.drop_last();
        lemma_parameters_round_trip(init);
        assert(wires.drop_last() =~= init.map_values(f));
        assert(wires.last() == wire_parameter(parameters.last()));
        assert(lsp_parameter(wires.last()) == Some(parameters.last()));
        assert(init.push(parameters.last()) =~= parameters);
    } else {
        assert(lsp_parameters(wires) =~= parameters);
    }
}

/// A peer that is told of a function knows what the language server said of it. Only a
/// signature whose parameters are not known comes out as one that has none.
pub proof fn law_signatures_round_trip(
    help: LspSignatureHelp,
    wire: WireSignatureHelp,
    back: LspSignatureHelp,
)
    requires
        is_wire_help(help, wire),
        is_lsp_help(wire, back),
    ensures
        back.active_signature == help.active_signature,
        back.active_parameter == help.active_parameter,
        back.signatures@.len() == help.signatures@.len(),
        forall|i: int|
            0 <= i < help.signatures@.len() ==> {
                let one = #[trigger] back.signatures@[i];
                &&& one.label == help.signatures@[i].label
                &&& one.documentation == help.signatures@[i].documentation
                &&& one.active_parameter == help.signatures@[i].active_parameter
                &&& known_parameters(one.parameters) == known_parameters(
                    help.signatures@[i].parameters,
                )
            },
{
    assert forall|i: int| 0 <= i < help.signatures@.len() implies {
        let one = #[trigger] back.signatures@[i];
        &&& one.label == help.signatures@[i].label
        &&& one.documentation == help.signatures@[i].documentation
        &&& one.active_parameter == help.signatures@[i].active_parameter
        &&& known_parameters(one.parameters) == known_parameters(help.signatures@[i].parameters)
    } by {
        assert(is_wire_signature(help.signatures@[i], wire.signatures@[i]));
        lemma_parameters_round_trip(known_parameters(help.signatures@[i].parameters));
    }
}

/// The active parameter is what its highlight covers.
pub proof fn law_highlight_covers_the_parameter(labels: Seq<Seq<char>>, count: nat, active: u32)
    requires
        active < labels.len(),
        byte_len(help_label(labels, count)) <= usize::MAX,
    ensures
        ({
            let highlight = help_highlights(labels, count, Some(active))[0];
            let label = help_label(labels, count);
            exists|before: Seq<char>, after: Seq<char>|
                label == #[trigger] (before + labels[active as int] + after) && byte_len(before)
                    == highlight.start && byte_len(before + labels[active as int])
                    == highlight.end
        }),
{
    let i: int = active as int;
    let before = if i == 0 {
        Seq::<char>::empty()
    } else {
        joined(labels.take(i), ", "@) + ", "@
    };
    crate::text::lemma_byte_len_bounds(Seq::<char>::empty());
    lemma_byte_len_concat(before, labels[i]);
    let upto = labels.take(i + 1);
    assert(upto.drop_last() =~= labels.take(i));
    assert(upto.last() == labels[i]);
    if i == 0 {
        assert(joined(upto, ", "@) =~= before + labels[i]);
    } else {
        assert(joined(upto, ", "@) =~= before + labels[i]);
    }
    let tail = lemma_joined_prefix(labels, i + 1);
    let suffix = if count >= 2 {
        seq![' '] + overload_text(count)
    } else {
        Seq::<char>::empty()
    };
    let after = tail + suffix;
    let label = help_label(labels, count);
    assert(label =~= before + labels[i] + after);
    lemma_byte_len_concat(before + labels[i], after);
    let highlight = help_highlights(labels, count, Some(active))[0];
    assert(highlight.start == byte_len(before));
    assert(highlight.end == byte_len(before + labels[i]));
    assert(label == before + labels[active as int] + after);
}

proof fn lemma_joined_prefix(labels: Seq<Seq<char>>, n: int) -> (tail: Seq<char>)
    requires
        1 <= n <= labels.len(),
    ensures
        joined(labels, ", "@) == joined(labels.take(n), ", "@) + tail,
    decreases labels.len(),
{
    if n == labels.len() {
        assert(labels.take(n) =~= labels);
        assert(joined(labels, ", "@) =~= joined(labels.take(n), ", "@) + Seq::<char>::empty());
        Seq::empty()
    } else {
        let init = labels.drop_last();
        assert(init.take(n) =~= labels.take(n));
        let before = lemma_joined_prefix(init, n);
        let tail = before + ", "@ + labels.last();
        assert(joined(labels, ", "@) =~= joined(labels.take(n), ", "@) + tail);
        tail
    }
}

/// Whether a text is some parts with a comma and a space between every two, where the parts
/// start at the given places.
#[verifier::opaque]
pub open spec fn is_listed(text: Seq<char>, parts: Seq<Seq<char>>, starts: Seq<int>) -> bool {
    &&& starts.len() == parts.len() > 0
    &&& starts[0] == 0
    &&& forall|i: int|
        0 <= i < parts.len() ==> 0 <= #[trigger] starts[i] && starts[i] + parts[i].len()
            <= text.len() && text.subrange(starts[i], starts[i] + parts[i].len()) == parts[i]
    &&& forall|i: int|
        0 < i < parts.len() ==> #[trigger] starts[i] == starts[i - 1] + parts[i - 1].len() + 2
            && text[starts[i] - 2] == ',' && text[starts[i] - 1] == ' '
    &&& text.len() == starts.last() + parts.last().len()
}

proof fn lemma_joined_is_listed(labels: Seq<Seq<char>>) -> (starts: Seq<int>)
    requires
        labels.len() > 0,
    ensures
        is_listed(joined(labels, ", "@), labels, starts),
    decreases labels.len(),
{
    reveal(is_listed);
    reveal_strlit(", ");
    let text = joined(labels, ", "@);
    if labels.len() == 1 {
        let starts = seq![0int];
        assert(text.subrange(0, text.len() as int) =~= text);
        starts
    } else {
        let init = labels.drop_last();
        let before = lemma_joined_is_listed(init);
        let start = joined(init, ", "@);
        let starts = before.push((start.len() + 2) as int);
        assert(text =~= start + ", "@ + labels.last());
        assert(text[start.len() as int] == ", "@[0]);
        assert(text[(start.len() + 1) as int] == ", "@[1]);
        assert forall|i: int| 0 <= i < labels.len() implies 0 <= #[trigger] starts[i] && starts[i]
            + labels[i].len() <= text.len() && text.subrange(
            starts[i],
            starts[i] + labels[i].len(),
        ) == labels[i] by {
            if i < init.len() {
                assert(starts[i] == before[i]);
                assert(init[i] == labels[i]);
                assert(text.subrange(starts[i], starts[i] + labels[i].len()) =~= start.subrange(
                    before[i],
                    before[i] + init[i].len(),
                ));
            } else {
                assert(text.subrange(starts[i], starts[i] + labels[i].len()) =~= labels[i]);
            }
        }
        assert forall|i: int| 0 < i < labels.len() implies #[trigger] starts[i] == starts[i - 1]
            + labels[i - 1].len() + 2 && text[starts[i] - 2] == ',' && text[starts[i] - 1]
            == ' ' by {
            assert(starts[i - 1] == before[i - 1]);
            assert(labels[i - 1] == init[i - 1]);
            if i < init.len() {
                assert(starts[i] == before[i]);
                assert(start[starts[i] - 2] == ',');
            }
        }
        starts
    }
}

/// The parameters of a signature whose labels are texts.
pub open spec fn plain_labels(parameters: Seq<ParameterInformation>) -> bool {
    forall|i: int| 0 <= i < parameters.len() ==> (#[trigger] parameters[i]).label is Simple
}

/// The label of a function lists the parameters of one signature, in their order, and behind
/// them how many more signatures there are. It is the one that the server says is active.
/// Where the server names none, or one that is not there, it is the first.
pub proof fn law_label_lists_the_parameters(
    help: LspSignatureHelp,
    shown: int,
    parameters: Vec<ParameterInformation>,
    r: Option<SignatureHelp>,
)
    requires
        call_ensures(SignatureHelp::new, (help,), r),
        0 <= shown < help.signatures@.len(),
        match help.active_signature {
            Some(active) => shown == active || (active >= help.signatures@.len() && shown == 0),
            None => shown == 0,
        },
        help.signatures@[shown].parameters == Some(parameters),
        parameters@.len() > 0,
        plain_labels(parameters@),
    ensures
        r is Some,
        r->0.original_data == help,
        ({
            let parts = parameters@.map_values(|one: ParameterInformation| one.label->Simple_0@);
            let count = help.signatures@.len();
            exists|list: Seq<char>, starts: Seq<int>| #[trigger]
                is_listed(list, parts, starts) && r->0.label@ == (if count > 1 {
                    list + " (+"@ + decimal((count - 1) as nat) + " overload)"@
                } else {
                    list
                })
        }),
{
    let parts = parameters@.map_values(|one: ParameterInformation| one.label->Simple_0@);
    let labels = parameter_texts(help.signatures@[shown].label@, parameters@);
    assert(labels =~= parts);
    let starts = lemma_joined_is_listed(labels);
    let count = help.signatures@.len();
    assert(shown_labels(help) == Some(labels));
    assert(is_listed(joined(labels, ", "@), parts, starts));
    lemma_label_text(labels, count);
}

proof fn lemma_label_text(labels: Seq<Seq<char>>, count: nat)
    ensures
        help_label(labels, count) == (if count > 1 {
            joined(labels, ", "@) + " (+"@ + decimal((count - 1) as nat) + " overload)"@
        } else {
            joined(labels, ", "@)
        }),
{
    reveal_strlit(" (+");
    reveal_strlit("(+");
    assert(seq![' '] + "(+"@ =~= " (+"@);
    assert(help_label(labels, count) =~= (if count > 1 {
        joined(labels, ", "@) + " (+"@ + decimal((count - 1) as nat) + " overload)"@
    } else {
        joined(labels, ", "@)
    }));
}

/// A label that is given by its place in the label of its signature is that part of it.
/// Places behind the end stand for the end.
pub proof fn law_offsets_cut_the_label(
    help: LspSignatureHelp,
    parameters: Vec<ParameterInformation>,
    start: u32,
    end: u32,
    r: Option<SignatureHelp>,
)
    requires
        call_ensures(SignatureHelp::new, (help,), r),
        help.signatures@.len() == 1,
        help.signatures@[0].parameters == Some(parameters),
        parameters@.len() == 1,
        parameters@[0].label == ParameterLabel::LabelOffsets(start, end),
        start <= end,
    ensures
        ({
            let whole = help.signatures@[0].label@;
            &&& r is Some
            &&& end <= whole.len() ==> r->0.label@ == whole.subrange(start as int, end as int)
            &&& start <= whole.len() < end ==> r->0.label@ == whole.skip(start as int)
            &&& whole.len() < start ==> r->0.label@ == Seq::<char>::empty()
        }),
{
    let whole = help.signatures@[0].label@;
    let labels = parameter_texts(whole, parameters@);
    assert(shown_labels(help) == Some(labels));
    assert(labels =~= seq![parameter_text(whole, parameters@[0].label)]);
    assert(joined(labels, ", "@) == labels[0]);
    assert(start <= whole.len() ==> whole.subrange(start as int, whole.len() as int)
        =~= whole.skip(start as int));
    assert(whole.len() < start ==> labels[0] =~= Seq::<char>::empty());
}

/// Nothing is shown exactly where there is no signature, or the one to show has no
/// parameter.
pub proof fn law_nothing_to_show(help: LspSignatureHelp, r: Option<SignatureHelp>)
    requires
        call_ensures(SignatureHelp::new, (help,), r),
    ensures
        help.signatures@.len() == 0 ==> r is None,
        help.signatures@.len() > 0 ==> {
            let shown = if help.active_signature is Some && help.active_signature->0
                < help.signatures@.len() {
                help.signatures@[help.active_signature->0 as int]
            } else {
                help.signatures@[0]
            };
            r is None <==> shown.parameters is None || shown.parameters->0@.len() == 0
        },
{
}

/// The parameter that stands out is the active one of the whole help, and that there are
/// more signatures stands out behind the list.
pub proof fn law_what_stands_out(help: LspSignatureHelp, r: Option<SignatureHelp>)
    requires
        call_ensures(SignatureHelp::new, (help,), r),
        r is Some,
        byte_len(r->0.label@) <= usize::MAX,
    ensures
        ({
            let shown = if help.active_signature is Some && help.active_signature->0
                < help.signatures@.len() {
                help.signatures@[help.active_signature->0 as int]
            } else {
                help.signatures@[0]
            };
            let count = shown.parameters->0@.len();
            let is_active = help.active_parameter is Some && help.active_parameter->0 < count;
            let has_more = help.signatures@.len() > 1;
            let marks = r->0.highlights@;
            &&& marks.len() == (if is_active {
                1int
            } else {
                0
            }) + (if has_more {
                1int
            } else {
                0
            })
            &&& is_active ==> marks[0].style == HighlightStyle::ExtraBold
            &&& has_more ==> marks.last().style == HighlightStyle::Italic && marks.last().end
                == byte_len(r->0.label@)
        }),
{
    let labels = shown_labels(help)->0;
    let count = help.signatures@.len();
    if count > 1 {
        let list = joined(labels, ", "@);
        lemma_byte_len_concat(list, seq![' ']);
        lemma_byte_len_concat(list + seq![' '], overload_text(count));
        crate::text::lemma_byte_len_push(list, ' ');
        assert(list + seq![' '] =~= list.push(' '));
        assert(help_label(labels, count) =~= list + seq![' '] + overload_text(count));
    }
}

/// Whether documentation is sent as what it is.
pub open spec fn told_as_it_is(
    documentation: Option<Documentation>,
    wire: Option<WireDocumentation>,
) -> bool {
    match documentation {
        None => wire is None,
        Some(Documentation::Text(text)) => wire == Some(
            WireDocumentation { content: Some(WireContent::Value(text)) },
        ),
        Some(Documentation::MarkupContent { kind, value }) => wire == Some(
            WireDocumentation {
                content: Some(
                    WireContent::MarkupContent { is_markdown: kind is Markdown, value },
                ),
            },
        ),
    }
}

/// Whether a parameter is sent as what it is.
pub open spec fn parameter_as_it_is(
    parameter: ParameterInformation,
    wire: WireParameter,
) -> bool {
    &&& parameter.label matches ParameterLabel::Simple(text) ==> wire.label == Some(
        WireLabel::Simple(text),
    )
    &&& parameter.label matches ParameterLabel::LabelOffsets(start, end) ==> wire.label == Some(
        WireLabel::LabelOffsets { start, end },
    )
    &&& told_as_it_is(parameter.documentation, wire.documentation)
}

/// A peer is told of every signature with its label, its documentation and its parameters, and
/// of what is active.
pub proof fn law_peers_are_told_of_signatures(
    help: LspSignatureHelp,
    wire: WireSignatureHelp,
    i: int,
    k: int,
)
    requires
        call_ensures(lsp_to_proto_signature, (help,), wire),
        0 <= i < help.signatures@.len(),
    ensures
        wire.active_signature == help.active_signature,
        wire.active_parameter == help.active_parameter,
        wire.signatures@.len() == help.signatures@.len(),
        wire.signatures@[i].label == help.signatures@[i].label,
        wire.signatures@[i].active_parameter == help.signatures@[i].active_parameter,
        told_as_it_is(help.signatures@[i].documentation, wire.signatures@[i].documentation),
        help.signatures@[i].parameters is None ==> wire.signatures@[i].parameters@.len() == 0,
        help.signatures@[i].parameters matches Some(all) ==> all@.len()
            == wire.signatures@[i].parameters@.len() && (0 <= k < all@.len()
            ==> parameter_as_it_is(all@[k], wire.signatures@[i].parameters@[k])),
{
    assert(is_wire_signature(help.signatures@[i], wire.signatures@[i]));
}

proof fn lemma_lsp_parameters(wires: Seq<WireParameter>)
    ensures
        ({
            let labelled = wires.filter(|wire: WireParameter| wire.label is Some);
            &&& lsp_parameters(wires).len() == labelled.len()
            &&& forall|k: int|
                0 <= k < labelled.len() ==> Some(#[trigger] lsp_parameters(wires)[k])
                    == lsp_parameter(labelled[k]) && labelled[k].label is Some
        }),
    decreases wires.len(),
{
    reveal(Seq::filter);
    if wires.len() > 0 {
        lemma_lsp_parameters(wires.drop_last());
    }
}

/// What a peer told of a signature is taken as it is. Parameters without a label are left out,
/// and so is documentation without content.
pub proof fn law_what_peers_tell_is_taken(
    wire: WireSignatureHelp,
    help: LspSignatureHelp,
    i: int,
    k: int,
)
    requires
        call_ensures(proto_to_lsp_signature, (wire,), help),
        0 <= i < wire.signatures@.len(),
    ensures
        wire.active_signature == help.active_signature,
        wire.active_parameter == help.active_parameter,
        wire.signatures@.len() == help.signatures@.len(),
        wire.signatures@[i].label == help.signatures@[i].label,
        wire.signatures@[i].active_parameter == help.signatures@[i].active_parameter,
        wire.signatures@[i].documentation matches Some(told) && told.content is None
            ==> help.signatures@[i].documentation is None,
        !(wire.signatures@[i].documentation matches Some(told) && told.content is None)
            ==> told_as_it_is(help.signatures@[i].documentation, wire.signatures@[i].documentation),
        help.signatures@[i].parameters is Some,
        ({
            let labelled = wire.signatures@[i].parameters@.filter(
                |wire: WireParameter| wire.label is Some,
            );
            let taken = help.signatures@[i].parameters->0@;
            &&& taken.len() == labelled.len()
            &&& 0 <= k < taken.len() && !(labelled[k].documentation matches Some(told)
                && told.content is None) ==> parameter_as_it_is(taken[k], labelled[k])
        }),
{
    assert(is_lsp_signature(wire.signatures@[i], help.signatures@[i]));
    lemma_lsp_parameters(wire.signatures@[i].parameters@);
    let labelled = wire.signatures@[i].parameters@.filter(
        |wire: WireParameter| wire.label is Some,
    );
    if 0 <= k < labelled.len() {
        assert(Some(lsp_parameters(wire.signatures@[i].parameters@)[k]) == lsp_parameter(
            labelled[k],
        ));
    }
}

} // verus!
