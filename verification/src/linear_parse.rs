use vstd::prelude::*;
use crate::colour::Colour;

verus! {

/// A field of an embed as the JSON text gives it.
pub struct JsonEmbedField {
    pub title: Option<String>,
    pub value: Option<String>,
    pub inline: Option<bool>,
}

/// An embed colour as the JSON text gives it: a packed `0xRRGGBB` number.
pub struct JsonEmbedColor(pub i32);

/// The author block as the JSON text gives it.
pub struct JsonEmbedAuthor {
    pub name: Option<String>,
    pub icon: Option<String>,
    pub url: Option<String>,
}

/// An image as the JSON text gives it.
pub struct JsonEmbedImage {
    pub url: Option<String>,
    pub width: Option<u64>,
    pub height: Option<u64>,
}

/// The footer block as the JSON text gives it.
pub struct JsonEmbedFooter {
    pub url: Option<String>,
    pub text: Option<String>,
}

/// A thumbnail as the JSON text gives it.
pub struct JsonEmbedThumbnail(pub JsonEmbedImage);

/// A whole embed as the JSON text gives it.
pub struct JsonEmbed {
    pub title: Option<String>,
    pub description: Option<String>,
    pub color: Option<JsonEmbedColor>,
    pub fields: Option<Vec<JsonEmbedField>>,
    pub author: Option<JsonEmbedAuthor>,
    pub image: Option<JsonEmbedImage>,
    pub timestamp: Option<String>,
    pub footer: Option<JsonEmbedFooter>,
}

/// What to set on one field of a chat embed; `None` leaves it as the
/// builder has it.
pub struct EmbedField {
    pub name: Option<String>,
    pub value: Option<String>,
    pub inline: Option<bool>,
}

/// What to set on the author block of a chat embed.
pub struct EmbedAuthor {
    pub name: Option<String>,
    pub icon_url: Option<String>,
    pub url: Option<String>,
}

/// What to set on the footer of a chat embed.
pub struct EmbedFooter {
    pub icon_url: Option<String>,
    pub text: Option<String>,
}

/// What to set on a chat embed, in the order the builder is called:
/// title, description, colour, each field, author, image, timestamp, footer.
pub struct Embed {
    pub title: Option<String>,
    pub description: Option<String>,
    pub colour: Option<Colour>,
    pub fields: Vec<EmbedField>,
    pub author: Option<EmbedAuthor>,
    pub image: Option<String>,
    pub timestamp: Option<String>,
    pub footer: Option<EmbedFooter>,
}

/// The packed value a JSON colour number stands for.
pub open spec fn colour_value(v: i32) -> int {
    if v < 0 { v + 4294967296 } else { v as int }
}

/// A JSON field becomes a field whose name is its title.
pub open spec fn field_of(f: JsonEmbedField) -> EmbedField {
    EmbedField { name: f.title, value: f.value, inline: f.inline }
}

/// The embed the JSON describes: every given part is set; an image is set
/// only when it has a URL, and its size is dropped.
pub open spec fn embed_of(j: JsonEmbed, e: Embed) -> bool {
    &&& e.title == j.title
    &&& e.description == j.description
    &&& match j.color {
        Some(c) => e.colour matches Some(col) && col.0 as int == colour_value(c.0),
        None => e.colour is None,
    }
    &&& e.fields@ == match j.fields {
        Some(fs) => fs@.map_values(|f: JsonEmbedField| field_of(f)),
        None => Seq::<EmbedField>::empty(),
    }
    &&& e.author == match j.author {
        Some(a) => Some(EmbedAuthor { name: a.name, icon_url: a.icon, url: a.url }),
        None => None,
    }
    &&& e.image == match j.image {
        Some(i) => i.url,
        None => None,
    }
    &&& e.timestamp == j.timestamp
    &&& e.footer == match j.footer {
        Some(f) => Some(EmbedFooter { icon_url: f.url, text: f.text }),
        None => None,
    }
}

/// The embed keeps everything the JSON gives, each in its own place: the
/// title, the description and the timestamp as given; the colour's packed
/// value; each field, in order, with the JSON title as its name and the
/// same value and inline flag; the author's name, icon and URL; the image's
/// URL; the footer's icon URL and text. Nothing the JSON leaves out is set.
pub proof fn lemma_embed_keeps_json(j: JsonEmbed, e: Embed)
    requires
        embed_of(j, e),
    ensures
        e.title == j.title,
        e.description == j.description,
        e.timestamp == j.timestamp,
        j.color is None <==> e.colour is None,
        j.color matches Some(c) ==> (e.colour matches Some(col)
            && col.0 as int == (if c.0 < 0 { c.0 + 4294967296 } else { c.0 as int })),
        e.fields@.len() == (match j.fields {
            Some(fs) => fs@.len() as int,
            None => 0int,
        }),
        j.fields matches Some(fs) ==> forall|k: int| 0 <= k < fs@.len() ==> {
            &&& #[trigger] e.fields@[k].name == fs@[k].title
            &&& e.fields@[k].value == fs@[k].value
            &&& e.fields@[k].inline == fs@[k].inline
        },
        j.author is None <==> e.author is None,
        j.author matches Some(a) ==> e.author->0.name == a.name && e.author->0.icon_url == a.icon
            && e.author->0.url == a.url,
        j.image matches Some(i) ==> e.image == i.url,
        j.image is None ==> e.image is None,
        j.footer is None <==> e.footer is None,
        j.footer matches Some(f) ==> e.footer->0.icon_url == f.url && e.footer->0.text == f.text,
{
}

/// Turns embed descriptions written as JSON into chat embeds.
#[derive(Debug)]
pub struct JsonToDiscordEmbedObject;

impl JsonToDiscordEmbedObject {
    pub fn new() -> JsonToDiscordEmbedObject {
        JsonToDiscordEmbedObject {}
    }

    /// The embed that the parsed JSON describes.
    pub fn parse(&self, psd: JsonEmbed) -> (r: Embed)
        ensures
            embed_of(psd, r),
    {
        let ghost j = psd;
        let colour = match psd.color {
            Some(c) => Some(Colour::from_i32(c.0)),
            None => None,
        };
        let fields = match psd.fields {
            Some(fs) => fields_of(fs),
            None => Vec::new(),
        };
        let author = match psd.author {
            Some(a) => Some(EmbedAuthor { name: a.name, icon_url: a.icon, url: a.url }),
            None => None,
        };
        let image = match psd.image {
            Some(i) => i.url,
            None => None,
        };
        let footer = match psd.footer {
            Some(f) => Some(EmbedFooter { icon_url: f.url, text: f.text }),
            None => None,
        };
        Embed {
            title: psd.title,
            description: psd.description,
            colour,
            fields,
            author,
            image,
            timestamp: psd.timestamp,
            footer,
        }
    }
}

fn fields_of(fs: Vec<JsonEmbedField>) -> (r: Vec<EmbedField>)
    ensures
        r@ == fs@.map_values(|f: JsonEmbedField| field_of(f)),
{
    let mut fs = fs;
    let ghost all = fs@;
    let mut rev: Vec<EmbedField> = Vec::new();
    while fs.len() > 0
        invariant
            fs@ == all.subrange(0, fs@.len() as int),
            fs@.len() + rev@.len() == all.len(),
            forall|k: int| 0 <= k < rev@.len() ==> #[trigger] rev@[k] == field_of(all[all.len() - 1 - k]),
        decreases fs@.len(),
    {
        let f = fs.pop().unwrap();
        rev.push(EmbedField { name: f.title, value: f.value, inline: f.inline });
        assert(fs@ =~= all.subrange(0, fs@.len() as int));
    }
    let mut r: Vec<EmbedField> = Vec::new();
    while rev.len() > 0
        invariant
            rev@.len() + r@.len() == all.len(),
            forall|k: int| 0 <= k < rev@.len() ==> #[trigger] rev@[k] == field_of(all[all.len() - 1 - k]),
            forall|k: int| 0 <= k < r@.len() ==> #[trigger] r@[k] == field_of(all[k]),
        decreases rev@.len(),
    {
        let e = rev.pop().unwrap();
        r.push(e);
    }
    assert(r@ =~= all.map_values(|f: JsonEmbedField| field_of(f)));
    r
}

} // verus!
