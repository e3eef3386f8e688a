//! A syndication item as the library reads it, and the choice of its image.
use vstd::prelude::*;
use crate::text::{str_eq, starts_with};

verus! {

/// One namespaced extension element of a feed item: its attributes and its
/// child elements grouped by name, each list in key order with unique keys.
pub struct Extension {
    pub attrs: Vec<(String, String)>,
    pub children: Vec<(String, Vec<Extension>)>,
}

/// An attached resource of a feed item.
pub struct Enclosure {
    pub url: String,
    pub mime_type: String,
}

/// A raw syndication item. `extensions` maps a namespace prefix to the
/// extension elements of that namespace grouped by element name.
pub struct FeedItem {
    pub title: Option<String>,
    pub link: Option<String>,
    pub pub_date: Option<String>,
    pub extensions: Vec<(String, Vec<(String, Vec<Extension>)>)>,
    pub enclosure: Option<Enclosure>,
}

/// The value of the first entry of `m` whose key is `k`.
pub open spec fn lookup<V>(m: Seq<(String, V)>, k: Seq<char>) -> Option<V>
    decreases m.len(),
{
    if m.len() == 0 {
        None
    } else if m[0].0@ == k {
        Some(m[0].1)
    } else {
        lookup(m.drop_first(), k)
    }
}

/// The value of attribute `k`, as characters.
pub open spec fn attr(e: Extension, k: Seq<char>) -> Option<Seq<char>> {
    match lookup(e.attrs@, k) {
        Some(v) => Some(v@),
        None => None,
    }
}

/// The elements of a group, or none when the group is absent.
pub open spec fn group(g: Option<Vec<Extension>>) -> Seq<Extension> {
    match g {
        Some(v) => v@,
        None => Seq::empty(),
    }
}

/// The `url` of the first element that has one.
pub open spec fn first_url(es: Seq<Extension>) -> Option<Seq<char>>
    decreases es.len(),
{
    if es.len() == 0 {
        None
    } else if attr(es[0], "url"@) is Some {
        attr(es[0], "url"@)
    } else {
        first_url(es.drop_first())
    }
}

/// Whether a media content element declares itself an image.
pub open spec fn is_image_content(e: Extension) -> bool {
    attr(e, "medium"@) == Some("image"@)
}

/// The `url` of the first content element declared an image that has one.
pub open spec fn first_image_content(cs: Seq<Extension>) -> Option<Seq<char>>
    decreases cs.len(),
{
    if cs.len() == 0 {
        None
    } else if is_image_content(cs[0]) && attr(cs[0], "url"@) is Some {
        attr(cs[0], "url"@)
    } else {
        first_image_content(cs.drop_first())
    }
}

/// The first thumbnail `url` nested under the content elements, in order.
pub open spec fn first_nested_thumbnail(cs: Seq<Extension>) -> Option<Seq<char>>
    decreases cs.len(),
{
    if cs.len() == 0 {
        None
    } else {
        match first_url(group(lookup(cs[0].children@, "thumbnail"@))) {
            Some(u) => Some(u),
            None => first_nested_thumbnail(cs.drop_first()),
        }
    }
}

/// The media namespace of an item.
pub open spec fn media_of(item: FeedItem) -> Seq<(String, Vec<Extension>)> {
    match lookup(item.extensions@, "media"@) {
        Some(ns) => ns@,
        None => Seq::empty(),
    }
}

/// The enclosure's url, when it declares an image type.
pub open spec fn enclosure_image(item: FeedItem) -> Option<Seq<char>> {
    match item.enclosure {
        Some(e) => if "image/"@.len() <= e.mime_type@.len() && e.mime_type@.subrange(0, "image/"@.len() as int) == "image/"@ {
            Some(e.url@)
        } else {
            None
        },
        None => None,
    }
}

/// The image of an item: the first of, in this order, a media content element
/// declared an image, a thumbnail nested in a media content element, a
/// top-level media thumbnail, an enclosure of an image type.
pub open spec fn image_of(item: FeedItem) -> Option<Seq<char>> {
    let contents = group(lookup(media_of(item), "content"@));
    let thumbnails = group(lookup(media_of(item), "thumbnail"@));
    if first_image_content(contents) is Some {
        first_image_content(contents)
    } else if first_nested_thumbnail(contents) is Some {
        first_nested_thumbnail(contents)
    } else if first_url(thumbnails) is Some {
        first_url(thumbnails)
    } else {
        enclosure_image(item)
    }
}

/// The index of the first entry of `m` whose key is `k`.
fn find_key<V>(m: &Vec<(String, V)>, k: &str) -> (r: Option<usize>)
    ensures
        match r {
            Some(i) => i < m@.len() && lookup(m@, k@) == Some(m@[i as int].1),
            None => lookup(m@, k@) is None,
        },
{
    let mut i: usize = 0;
    assert(m@.subrange(0, m@.len() as int) =~= m@);
    while i < m.len()
        invariant
            i <= m@.len(),
            lookup(m@, k@) == lookup(m@.subrange(i as int, m@.len() as int), k@),
        decreases m.len() - i,
    {
        let ghost rest = m@.subrange(i as int, m@.len() as int);
        assert(rest.drop_first() =~= m@.subrange(i + 1, m@.len() as int));
        if str_eq(m[i].0.as_str(), k) {
            return Some(i);
        }
        i = i + 1;
    }
    None
}

/// The value of attribute `k` of `e`.
fn find_attr(e: &Extension, k: &str) -> (r: Option<String>)
    ensures
        match r {
            Some(v) => attr(*e, k@) == Some(v@),
            None => attr(*e, k@) is None,
        },
{
    match find_key(&e.attrs, k) {
        Some(i) => Some(e.attrs[i].1.clone()),
        None => None,
    }
}

fn find_first_url(es: &Vec<Extension>) -> (r: Option<String>)
    ensures
        match r {
            Some(v) => first_url(es@) == Some(v@),
            None => first_url(es@) is None,
        },
{
    let mut i: usize = 0;
    assert(es@.subrange(0, es@.len() as int) =~= es@);
    while i < es.len()
        invariant
            i <= es@.len(),
            first_url(es@) == first_url(es@.subrange(i as int, es@.len() as int)),
        decreases es.len() - i,
    {
        let ghost rest = es@.subrange(i as int, es@.len() as int);
        assert(rest.drop_first() =~= es@.subrange(i + 1, es@.len() as int));
        let u = find_attr(&es[i], "url");
        if u.is_some() {
            return u;
        }
        i = i + 1;
    }
    None
}

fn find_image_content(cs: &Vec<Extension>) -> (r: Option<String>)
    ensures
        match r {
            Some(v) => first_image_content(cs@) == Some(v@),
            None => first_image_content(cs@) is None,
        },
{
    let mut i: usize = 0;
    assert(cs@.subrange(0, cs@.len() as int) =~= cs@);
    while i < cs.len()
        invariant
            i <= cs@.len(),
            first_image_content(cs@) == first_image_content(cs@.subrange(i as int, cs@.len() as int)),
        decreases cs.len() - i,
    {
        let ghost rest = cs@.subrange(i as int, cs@.len() as int);
        assert(rest.drop_first() =~= cs@.subrange(i + 1, cs@.len() as int));
        let medium = find_attr(&cs[i], "medium");
        let is_image = match medium {
            Some(m) => str_eq(m.as_str(), "image"),
            None => false,
        };
        if is_image {
            let u = find_attr(&cs[i], "url");
            if u.is_some() {
                return u;
            }
        }
        i = i + 1;
    }
    None
}

fn find_nested_thumbnail(cs: &Vec<Extension>) -> (r: Option<String>)
    ensures
        match r {
            Some(v) => first_nested_thumbnail(cs@) == Some(v@),
            None => first_nested_thumbnail(cs@) is None,
        },
{
    let mut i: usize = 0;
    assert(cs@.subrange(0, cs@.len() as int) =~= cs@);
    while i < cs.len()
        invariant
            i <= cs@.len(),
            first_nested_thumbnail(cs@) == first_nested_thumbnail(cs@.subrange(i as int, cs@.len() as int)),
        decreases cs.len() - i,
    {
        let ghost rest = cs@.subrange(i as int, cs@.len() as int);
        assert(rest.drop_first() =~= cs@.subrange(i + 1, cs@.len() as int));
        let c = &cs[i];
        match find_key(&c.children, "thumbnail") {
            Some(j) => {
                let u = find_first_url(&c.children[j].1);
                if u.is_some() {
                    return u;
                }
            },
            None => {},
        }
        i = i + 1;
    }
    None
}

/// Resolves the image of a feed item through the fallback chain of `image_of`;
/// an item with none of the four sources has no image.
pub fn get_image_url(item: &FeedItem) -> (r: Option<String>)
    ensures
        match r {
            Some(v) => image_of(*item) == Some(v@),
            None => image_of(*item) is None,
        },
{
    let empty: Vec<Extension> = Vec::new();
    let empty_ns: Vec<(String, Vec<Extension>)> = Vec::new();
    let ns = match find_key(&item.extensions, "media") {
        Some(i) => &item.extensions[i].1,
        None => &empty_ns,
    };
    assert(ns@ == media_of(*item));
    let contents = match find_key(ns, "content") {
        Some(i) => &ns[i].1,
        None => &empty,
    };
    let thumbnails = match find_key(ns, "thumbnail") {
        Some(i) => &ns[i].1,
        None => &empty,
    };
    let a = find_image_content(contents);
    if a.is_some() {
        return a;
    }
    let b = find_nested_thumbnail(contents);
    if b.is_some() {
        return b;
    }
    let c = find_first_url(thumbnails);
    if c.is_some() {
        return c;
    }
    match &item.enclosure {
        Some(e) => {
            if starts_with(e.mime_type.as_str(), "image/") {
                Some(e.url.clone())
            } else {
                None
            }
        },
        None => None,
    }
}

} // verus!
