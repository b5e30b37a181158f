//! Embeds as plain values, their printed form, and the error replies that
//! interactions answer with.

use vstd::prelude::*;

use crate::text::{chars_of, hex, pad_left, push_hex, push_padded, push_str};

verus! {

/// The author line of an embed.
#[derive(Debug)]
pub struct EmbedAuthor {
    pub name: String,
    pub url: Option<String>,
    pub icon_url: Option<String>,
}

/// One field of an embed.
#[derive(Debug)]
pub struct EmbedField {
    pub name: String,
    pub value: String,
    pub inline: bool,
}

/// The footer of an embed.
#[derive(Debug)]
pub struct EmbedFooter {
    pub text: String,
    pub icon_url: Option<String>,
}

/// What an embed holds.
#[derive(Debug)]
pub struct Embed {
    pub author: Option<EmbedAuthor>,
    pub title: Option<String>,
    pub url: Option<String>,
    pub color: Option<u64>,
    pub description: Option<String>,
    pub fields: Vec<EmbedField>,
    pub image: Option<String>,
    pub thumbnail: Option<String>,
    pub footer: Option<EmbedFooter>,
    pub timestamp: Option<String>,
}

/// The optional text is there and reads `t`.
pub open spec fn text_is(s: Option<String>, t: Seq<char>) -> bool {
    match s {
        Some(x) => x@ == t,
        None => false,
    }
}

/// A field as plain values: name, value and whether it is inline.
pub open spec fn field_view(f: EmbedField) -> (Seq<char>, Seq<char>, bool) {
    (f.name@, f.value@, f.inline)
}

/// The fields as plain values.
pub open spec fn fields_view(fs: Seq<EmbedField>) -> Seq<(Seq<char>, Seq<char>, bool)> {
    fs.map_values(|f: EmbedField| field_view(f))
}

/// A field with the given name, value and placement.
pub fn field(name: &str, value: String, inline: bool) -> (f: EmbedField)
    ensures
        field_view(f) == (name@, value@, inline),
{
    EmbedField { name: String::from_str(name), value, inline }
}

/// An empty embed.
pub fn empty_embed() -> (e: Embed)
    ensures
        e.author is None && e.title is None && e.url is None && e.color is None,
        e.description is None && e.fields@.len() == 0 && e.image is None,
        e.thumbnail is None && e.footer is None && e.timestamp is None,
{
    Embed {
        author: None,
        title: None,
        url: None,
        color: None,
        description: None,
        fields: Vec::new(),
        image: None,
        thumbnail: None,
        footer: None,
        timestamp: None,
    }
}

/// The text of an optional string, or `default`.
pub open spec fn or_text(s: Option<String>, default: Seq<char>) -> Seq<char> {
    match s {
        Some(t) => t@,
        None => default,
    }
}

/// `line` followed by a line break.
pub open spec fn line(s: Seq<char>) -> Seq<char> {
    s + "\n"@
}

/// The author lines of a printed embed.
pub open spec fn author_text(a: Option<EmbedAuthor>) -> Seq<char> {
    match a {
        Some(a) => line("Author: "@ + a.name@) + line("Author url: "@ + or_text(a.url, "No url"@))
            + line("Author icon: "@ + or_text(a.icon_url, "No icon"@)),
        None => line("Author: no author"@),
    }
}

/// The title line of a printed embed, with the embed's url after it.
pub open spec fn title_text(title: Option<String>, url: Option<String>) -> Seq<char> {
    line(
        "# "@ + or_text(title, "No title"@) + match url {
            Some(u) => " ("@ + u@ + ")"@,
            None => seq![],
        },
    )
}

/// The colour line of a printed embed: `#` and the colour in lower-case hexadecimal,
/// right-aligned in six places (the `{:6x}` format).
pub open spec fn color_text(color: Option<u64>) -> Seq<char> {
    match color {
        Some(c) => line("Color: #"@ + pad_left(hex(c as nat), 6)),
        None => seq![],
    }
}

/// The printed fields: a `- ` line with the name, the value, and an empty line.
pub open spec fn fields_text(fields: Seq<EmbedField>) -> Seq<char>
    decreases fields.len(),
{
    if fields.len() == 0 {
        seq![]
    } else {
        fields_text(fields.drop_last()) + line(
            "- "@ + fields.last().name@ + "\n"@ + fields.last().value@ + "\n"@,
        )
    }
}

/// The printed footer: `> ` and its text, then its icon.
pub open spec fn footer_text(f: Option<EmbedFooter>) -> Seq<char> {
    match f {
        Some(f) => line("> "@ + f.text@) + match f.icon_url {
            Some(i) => line("Icon: "@ + i@),
            None => seq![],
        },
        None => seq![],
    }
}

/// A labelled line that is there only when the value is.
pub open spec fn labelled(label: Seq<char>, v: Option<String>) -> Seq<char> {
    match v {
        Some(t) => line(label + t@),
        None => seq![],
    }
}

/// The printed form of an embed.
pub open spec fn embed_text(e: Embed) -> Seq<char> {
    author_text(e.author) + title_text(e.title, e.url) + color_text(e.color) + "\n"@ + match e.description {
        Some(d) => line(d@),
        None => seq![],
    } + "\n"@ + fields_text(e.fields@) + labelled("Image: "@, e.image) + labelled(
        "Thumbnail: "@,
        e.thumbnail,
    ) + footer_text(e.footer) + labelled("Timestamp: "@, e.timestamp)
}

/// Prints an embed in a readable form.
pub struct FormatEmbed(pub Embed);

fn push_or(s: &mut String, t: &Option<String>, default: &str)
    ensures
        final(s)@ == old(s)@ + or_text(*t, default@),
{
    match t {
        Some(t) => push_str(s, t.as_str()),
        None => push_str(s, default),
    }
}

fn push_labelled(s: &mut String, label: &str, v: &Option<String>)
    ensures
        final(s)@ == old(s)@ + labelled(label@, *v),
{
    let ghost start = s@;
    match v {
        Some(t) => {
            push_str(s, label);
            push_str(s, t.as_str());
            push_str(s, "\n");
            assert(s@ =~= start + labelled(label@, *v));
        },
        None => {
            assert(s@ =~= start + labelled(label@, *v));
        },
    }
}

impl FormatEmbed {
    /// The printed form of the embed.
    pub fn format(&self) -> (s: String)
        ensures
            s@ == embed_text(self.0),
    {
        embed_string(&self.0)
    }
}

fn push_author(s: &mut String, a: &Option<EmbedAuthor>)
    ensures
        final(s)@ == old(s)@ + author_text(*a),
{
    let ghost start = s@;
    match a {
        Some(a) => {
            push_str(s, "Author: ");
            push_str(s, a.name.as_str());
            push_str(s, "\n");
            push_str(s, "Author url: ");
            push_or(s, &a.url, "No url");
            push_str(s, "\n");
            push_str(s, "Author icon: ");
            push_or(s, &a.icon_url, "No icon");
            push_str(s, "\n");
        },
        None => {
            push_str(s, "Author: no author");
            push_str(s, "\n");
        },
    }
    assert(s@ =~= start + author_text(*a));
}

fn push_title(s: &mut String, title: &Option<String>, url: &Option<String>)
    ensures
        final(s)@ == old(s)@ + title_text(*title, *url),
{
    let ghost start = s@;
    push_str(s, "# ");
    push_or(s, title, "No title");
    match url {
        Some(u) => {
            push_str(s, " (");
            push_str(s, u.as_str());
            push_str(s, ")");
        },
        None => {},
    }
    push_str(s, "\n");
    assert(s@ =~= start + title_text(*title, *url));
}

fn push_color(s: &mut String, color: Option<u64>)
    ensures
        final(s)@ == old(s)@ + color_text(color),
{
    let ghost start = s@;
    match color {
        Some(c) => {
            push_str(s, "Color: #");
            let mut h = String::new();
            push_hex(&mut h, c);
            let hc = chars_of(h.as_str());
            push_padded(s, hc.as_slice(), 6);
            push_str(s, "\n");
        },
        None => {},
    }
    assert(s@ =~= start + color_text(color));
}

fn push_description(s: &mut String, d: &Option<String>)
    ensures
        final(s)@ == old(s)@ + "\n"@ + match *d {
            Some(d) => line(d@),
            None => seq![],
        } + "\n"@,
{
    let ghost start = s@;
    push_str(s, "\n");
    match d {
        Some(d) => {
            push_str(s, d.as_str());
            push_str(s, "\n");
        },
        None => {},
    }
    push_str(s, "\n");
    assert(s@ =~= start + "\n"@ + match *d {
        Some(d) => line(d@),
        None => seq![],
    } + "\n"@);
}

fn push_fields(s: &mut String, fields: &Vec<EmbedField>)
    ensures
        final(s)@ == old(s)@ + fields_text(fields@),
{
    let ghost start = s@;
    let mut i: usize = 0;
    while i < fields.len()
        invariant
            i <= fields@.len(),
            s@ == start + fields_text(fields@.take(i as int)),
        decreases fields@.len() - i,
    {
        let f = &fields[i];
        push_str(s, "- ");
        push_str(s, f.name.as_str());
        push_str(s, "\n");
        push_str(s, f.value.as_str());
        push_str(s, "\n");
        push_str(s, "\n");
        assert(fields@.take(i + 1).drop_last() =~= fields@.take(i as int));
        assert(s@ =~= start + fields_text(fields@.take(i + 1)));
        i = i + 1;
    }
    assert(fields@.take(fields@.len() as int) =~= fields@);
}

fn push_footer(s: &mut String, f: &Option<EmbedFooter>)
    ensures
        final(s)@ == old(s)@ + footer_text(*f),
{
    let ghost start = s@;
    match f {
        Some(f) => {
            push_str(s, "> ");
            push_str(s, f.text.as_str());
            push_str(s, "\n");
            push_labelled(s, "Icon: ", &f.icon_url);
        },
        None => {},
    }
    assert(s@ =~= start + footer_text(*f));
}

/// The printed form of an embed.
pub fn embed_string(e: &Embed) -> (s: String)
    ensures
        s@ == embed_text(*e),
{
    let mut s = String::new();
    push_author(&mut s, &e.author);
    push_title(&mut s, &e.title, &e.url);
    push_color(&mut s, e.color);
    push_description(&mut s, &e.description);
    push_fields(&mut s, &e.fields);
    push_labelled(&mut s, "Image: ", &e.image);
    push_labelled(&mut s, "Thumbnail: ", &e.thumbnail);
    push_footer(&mut s, &e.footer);
    push_labelled(&mut s, "Timestamp: ", &e.timestamp);
    assert(s@ =~= embed_text(*e));
    s
}

/// The colour of error replies.
pub const ERROR_COLOR: u64 = 0xff003c;

/// An error answered to an interaction: an embed with an optional title, the
/// description and an optional footer, in the error colour.
#[derive(Debug)]
pub struct ErrorResponse {
    pub title: Option<String>,
    pub description: String,
    pub footer: Option<String>,
}

impl ErrorResponse {
    /// An error with a description only.
    pub fn message(message: &str) -> (r: ErrorResponse)
        ensures
            r.title is None,
            r.description@ == message@,
            r.footer is None,
    {
        ErrorResponse { title: None, description: String::from_str(message), footer: None }
    }

    /// An error with a title and a description.
    pub fn with_title(title: &str, description: &str) -> (r: ErrorResponse)
        ensures
            r.title matches Some(t) && t@ == title@,
            r.description@ == description@,
            r.footer is None,
    {
        ErrorResponse {
            title: Some(String::from_str(title)),
            description: String::from_str(description),
            footer: None,
        }
    }

    /// An error with a title, a description and a footer.
    pub fn with_footer(title: &str, description: &str, footer: &str) -> (r: ErrorResponse)
        ensures
            r.title matches Some(t) && t@ == title@,
            r.description@ == description@,
            r.footer matches Some(f) && f@ == footer@,
    {
        ErrorResponse {
            title: Some(String::from_str(title)),
            description: String::from_str(description),
            footer: Some(String::from_str(footer)),
        }
    }

    /// The text of the error: `InteractionErrorResponse(` and the description.
    pub fn text(&self) -> (s: String)
        ensures
            s@ == "InteractionErrorResponse("@ + self.description@ + ")"@,
    {
        let mut s = String::from_str("InteractionErrorResponse(");
        push_str(&mut s, self.description.as_str());
        push_str(&mut s, ")");
        s
    }
}

} // verus!
