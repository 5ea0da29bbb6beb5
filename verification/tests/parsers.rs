use languagetool_rust::api::check::{Data, DataAnnotation};
use languagetool_rust::parsers::html::{html_data, space_text, HtmlNode};
use languagetool_rust::parsers::markdown::{markdown_data, MarkdownEvent, MarkdownTag};
use languagetool_rust::parsers::typst::{typst_data, TypstKind, TypstNode};

fn element(name: &str, children: Vec<HtmlNode>) -> HtmlNode {
    HtmlNode::Element {
        name: name.to_string(),
        children,
    }
}

fn text(t: &str) -> HtmlNode {
    HtmlNode::Text(t.to_string())
}

#[test]
fn html_text_keeps_one_space_around() {
    assert_eq!(space_text("word"), "word");
    assert_eq!(space_text("  two words\n"), " two words ");
    assert_eq!(space_text("two words \t "), "two words ");
    assert_eq!(space_text("\u{a0}x"), " x");
    assert_eq!(space_text("x"), "x");
    assert_eq!(space_text(""), "\n\n");
    assert_eq!(space_text(" \n "), "\n\n");
}

#[test]
fn html_blocks_are_paragraphs() {
    let nodes = vec![
        element("head", vec![element("title", vec![text("Title")])]),
        element(
            "body",
            vec![
                element("p", vec![text(" Some "), element("b", vec![text("bold")])]),
                HtmlNode::Comment("note".to_string()),
                element("code", vec![text("let x;")]),
                element("img", vec![]),
                HtmlNode::Other,
                text("\n"),
            ],
        ),
    ];
    let expected = Data::from(vec![
        DataAnnotation::new_markup("<body>"),
        DataAnnotation::new_interpreted_markup("<p>", "\n\n"),
        DataAnnotation::new_text(" Some "),
        DataAnnotation::new_markup("<b>"),
        DataAnnotation::new_text("bold"),
        DataAnnotation::new_markup("</b>"),
        DataAnnotation::new_interpreted_markup("</p>", "\n\n"),
        DataAnnotation::new_interpreted_markup("<!-- note -->", "\n\nnote\n\n"),
        DataAnnotation::new_interpreted_markup("<code>...</code>", "_ignore_"),
        DataAnnotation::new_interpreted_markup("<img />", "_ignore_"),
        DataAnnotation::new_text("\n\n"),
        DataAnnotation::new_markup("</body>"),
    ]);
    assert_eq!(html_data(&nodes), expected);
    assert_eq!(html_data(&Vec::new()), Data::default());
}

#[test]
fn markdown_events_become_annotations() {
    let events = vec![
        MarkdownEvent::Start(MarkdownTag::Heading(2)),
        MarkdownEvent::Text("Title".to_string()),
        MarkdownEvent::End(MarkdownTag::Heading(2)),
        MarkdownEvent::Start(MarkdownTag::Paragraph),
        MarkdownEvent::Text("A sentence.".to_string()),
        MarkdownEvent::SoftBreak,
        MarkdownEvent::Text("Some ".to_string()),
        MarkdownEvent::Start(MarkdownTag::Emphasis),
        MarkdownEvent::Text("words".to_string()),
        MarkdownEvent::End(MarkdownTag::Emphasis),
        MarkdownEvent::SoftBreak,
        MarkdownEvent::Start(MarkdownTag::Strong),
        MarkdownEvent::Text("loud!".to_string()),
        MarkdownEvent::End(MarkdownTag::Strong),
        MarkdownEvent::SoftBreak,
        MarkdownEvent::Code("x + y".to_string()),
        MarkdownEvent::HardBreak,
        MarkdownEvent::Start(MarkdownTag::Link),
        MarkdownEvent::Text("here".to_string()),
        MarkdownEvent::End(MarkdownTag::Link),
        MarkdownEvent::Other,
        MarkdownEvent::End(MarkdownTag::Paragraph),
        MarkdownEvent::Text("Outside".to_string()),
    ];
    let expected = Data::from(vec![
        DataAnnotation::new_text("## Title\n\n"),
        DataAnnotation::new_text("A sentence. "),
        DataAnnotation::new_text("Some "),
        DataAnnotation::new_interpreted_markup("_words_", "words"),
        DataAnnotation::new_text(" "),
        DataAnnotation::new_interpreted_markup("**loud! **", "loud! "),
        DataAnnotation::new_interpreted_markup("x + y", "_ignore_"),
        DataAnnotation::new_text("\n\n"),
        DataAnnotation::new_interpreted_markup("here", "_ignore_"),
        DataAnnotation::new_text("Outside"),
    ]);
    assert_eq!(markdown_data(&events), expected);
}

#[test]
fn markdown_lists_and_tables() {
    let events = vec![
        MarkdownEvent::Start(MarkdownTag::List(false)),
        MarkdownEvent::Start(MarkdownTag::Item),
        MarkdownEvent::Text("one".to_string()),
        MarkdownEvent::End(MarkdownTag::Item),
        MarkdownEvent::End(MarkdownTag::List(false)),
        MarkdownEvent::Start(MarkdownTag::Table),
        MarkdownEvent::Start(MarkdownTag::TableHead),
        MarkdownEvent::Start(MarkdownTag::TableCell),
        MarkdownEvent::Text("cell".to_string()),
        MarkdownEvent::End(MarkdownTag::TableCell),
        MarkdownEvent::End(MarkdownTag::TableHead),
        MarkdownEvent::Text("in a table".to_string()),
        MarkdownEvent::End(MarkdownTag::Table),
        MarkdownEvent::Html(vec![HtmlNode::Element {
            name: "br".to_string(),
            children: vec![],
        }]),
    ];
    let expected = Data::from(vec![
        DataAnnotation::new_text("- "),
        DataAnnotation::new_text("- "),
        DataAnnotation::new_text("one"),
        DataAnnotation::new_text("\n"),
        DataAnnotation::new_text("\n"),
        DataAnnotation::new_text("cell"),
        DataAnnotation::new_text(" | "),
        DataAnnotation::new_text("\n"),
        DataAnnotation::new_markup("<br>"),
        DataAnnotation::new_markup("</br>"),
    ]);
    assert_eq!(markdown_data(&events), expected);
}

fn leaf(kind: TypstKind, text: &str) -> TypstNode {
    TypstNode {
        kind,
        text: text.to_string(),
        children: vec![],
    }
}

fn inner(kind: TypstKind, children: Vec<TypstNode>) -> TypstNode {
    TypstNode {
        kind,
        text: String::new(),
        children,
    }
}

#[test]
fn typst_nodes_become_annotations() {
    let nodes = vec![
        inner(
            TypstKind::Heading,
            vec![
                leaf(TypstKind::Other, "="),
                leaf(TypstKind::Space, " "),
                inner(TypstKind::Markup, vec![leaf(TypstKind::Text, "Title")]),
            ],
        ),
        leaf(TypstKind::Parbreak, "\n\n"),
        leaf(TypstKind::Text, "Call"),
        leaf(TypstKind::Space, " "),
        inner(
            TypstKind::FuncCall,
            vec![
                leaf(TypstKind::Ident, "f"),
                inner(TypstKind::Args, vec![leaf(TypstKind::Other, "("), leaf(TypstKind::Other, ")")]),
            ],
        ),
        leaf(TypstKind::Raw, "`raw`"),
        inner(
            TypstKind::Other,
            vec![leaf(TypstKind::SmartQuote, "\""), leaf(TypstKind::Other, "skipped")],
        ),
        leaf(TypstKind::Other, "#"),
    ];
    let expected = Data::from(vec![
        DataAnnotation::new_interpreted_markup("= Title", " Title"),
        DataAnnotation::new_text("\n\n"),
        DataAnnotation::new_text("Call"),
        DataAnnotation::new_text(" "),
        DataAnnotation::new_interpreted_markup("f()", "_ignore_"),
        DataAnnotation::new_interpreted_markup("`raw`", "_ignore_"),
        DataAnnotation::new_text("\""),
    ]);
    assert_eq!(typst_data(&nodes), expected);
}
