use bridge_scrims::embed::{
    empty_embed, Embed, EmbedAuthor, EmbedField, EmbedFooter, ErrorResponse, FormatEmbed,
};

fn field(name: &str, value: &str) -> EmbedField {
    EmbedField { name: name.to_string(), value: value.to_string(), inline: false }
}

#[test]
fn test_big_embed() {
    let to_format = Embed {
        author: Some(EmbedAuthor {
            name: String::from("Bridge Scrims"),
            url: Some(String::from("https://example.org")),
            icon_url: Some(String::from("https://example.com")),
        }),
        // 0xF1C40F
        color: Some(0xF1C40F),
        description: Some(String::from("A very nice description.")),
        fields: vec![field("a", "b"), field("c", "d")],
        footer: Some(EmbedFooter {
            text: String::from("Bridge Scrims"),
            icon_url: Some(String::from("https://example.com")),
        }),
        image: Some(String::from("http://via.placeholder.com/150")),
        thumbnail: Some(String::from("http://via.placeholder.com/150")),
        timestamp: Some(String::from("1 jan 1970")),
        title: Some(String::from("A very nice embed")),
        url: Some(String::from("http://bridgescrims.com")),
    };

    let formatter = FormatEmbed(to_format);
    assert_eq!(
        formatter.format(),
        String::from(
            "Author: Bridge Scrims
Author url: https://example.org
Author icon: https://example.com
# A very nice embed (http://bridgescrims.com)
Color: #f1c40f

A very nice description.

- a
b

- c
d

Image: http://via.placeholder.com/150
Thumbnail: http://via.placeholder.com/150
> Bridge Scrims
Icon: https://example.com
Timestamp: 1 jan 1970
"
        )
    );
}

#[test]
fn empty_embed_prints_placeholders() {
    let formatter = FormatEmbed(empty_embed());
    assert_eq!(formatter.format(), "Author: no author\n# No title\n\n\n");
}

#[test]
fn small_color_is_padded_with_spaces() {
    let mut e = empty_embed();
    e.color = Some(0xff);
    e.author = Some(EmbedAuthor { name: String::from("x"), url: None, icon_url: None });
    assert_eq!(
        FormatEmbed(e).format(),
        "Author: x\nAuthor url: No url\nAuthor icon: No icon\n# No title\nColor: #    ff\n\n\n"
    );
}

#[test]
fn error_response_text() {
    let e = ErrorResponse::message("This queue is not full yet.");
    assert_eq!(e.text(), "InteractionErrorResponse(This queue is not full yet.)");
    assert!(e.title.is_none());
    let t = ErrorResponse::with_title("Invalid Duration", "bad");
    assert_eq!(t.title.as_deref(), Some("Invalid Duration"));
    let f = ErrorResponse::with_footer("a", "b", "c");
    assert_eq!(f.footer.as_deref(), Some("c"));
    assert_eq!(f.text(), "InteractionErrorResponse(b)");
}
