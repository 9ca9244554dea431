//! The front matter of a page and its Open Graph header.
use vstd::prelude::*;

use crate::text::string_of;

verus! {

/// Declares `std::time::SystemTime` so that a page's date can be carried
/// through; nothing is assumed of its value.
#[verifier::external_type_specification]
#[verifier::external_body]
pub struct ExSystemTime(std::time::SystemTime);

pub struct DocumentHeader {
    pub ogp: OgpData,
    pub title: String,
    pub tags: Vec<String>,
    pub date: std::time::SystemTime,
    pub summary: String,
    pub author: String,
}

pub struct OgpData {
    pub typ: String,
    pub description: String,
    pub image: Option<Image>,
}

pub struct Image {
    pub url: String,
    pub width: usize,
    pub height: usize,
    pub alt: Option<String>,
}

/// The decimal digit of `d < 10`.
pub open spec fn digit_char(d: nat) -> char {
    if d == 0 {
        '0'
    } else if d == 1 {
        '1'
    } else if d == 2 {
        '2'
    } else if d == 3 {
        '3'
    } else if d == 4 {
        '4'
    } else if d == 5 {
        '5'
    } else if d == 6 {
        '6'
    } else if d == 7 {
        '7'
    } else if d == 8 {
        '8'
    } else {
        '9'
    }
}

/// `n` in decimal, without leading zeros.
pub open spec fn decimal(n: nat) -> Seq<char>
    decreases n,
{
    if n < 10 {
        seq![digit_char(n)]
    } else {
        decimal(n / 10) + seq![digit_char(n % 10)]
    }
}

fn digit_exec(d: usize) -> (r: char)
    requires
        d < 10,
    ensures
        r == digit_char(d as nat),
{
    if d == 0 {
        '0'
    } else if d == 1 {
        '1'
    } else if d == 2 {
        '2'
    } else if d == 3 {
        '3'
    } else if d == 4 {
        '4'
    } else if d == 5 {
        '5'
    } else if d == 6 {
        '6'
    } else if d == 7 {
        '7'
    } else if d == 8 {
        '8'
    } else {
        '9'
    }
}

fn decimal_vec(n: usize) -> (r: Vec<char>)
    ensures
        r@ == decimal(n as nat),
    decreases n,
{
    if n < 10 {
        let mut v: Vec<char> = Vec::new();
        v.push(digit_exec(n));
        assert(v@ =~= decimal(n as nat));
        v
    } else {
        let mut v = decimal_vec(n / 10);
        v.push(digit_exec(n % 10));
        assert(v@ =~= decimal(n as nat));
        v
    }
}

/// `n` in decimal.
pub fn decimal_string(n: usize) -> (r: String)
    ensures
        r@ == decimal(n as nat),
{
    let v = decimal_vec(n);
    string_of(&v)
}

/// The `<meta>` tags of an image.
pub open spec fn image_meta(img: Image) -> Seq<char> {
    "<meta property=\"og:image\" content=\""@ + img.url@ + "\">"@ + match img.alt {
        Some(alt) => "<meta property=\"og:image:alt\" content=\""@ + alt@ + "\">"@,
        None => Seq::empty(),
    } + "<meta property=\"og:image:width\" content=\""@ + decimal(img.width as nat) + "\">"@
        + "<meta property=\"og:image:height\" content=\""@ + decimal(img.height as nat) + "\">"@
}

/// The Open Graph header of a page.
pub open spec fn ogp_html(o: OgpData, title: Seq<char>, site_name: Seq<char>, url: Seq<char>) -> Seq<
    char,
> {
    "\n<meta property=\"og:type\" content=\""@ + o.typ@ + "\">\n<meta property=\"og:title\" content=\""@
        + title + "\">\n<meta property=\"og:site_name\" content=\""@ + site_name
        + "\">\n<meta property=\"og:description\" content=\""@ + o.description@
        + "\">\n<meta property=\"og:url\" content=\""@ + url + "\">\n    "@ + match o.image {
        Some(img) => image_meta(img),
        None => Seq::empty(),
    }
}

impl OgpData {
    pub fn build_ogp(&self, title: &str, site_name: &str, url: &str) -> (r: String)
        ensures
            r@ == ogp_html(*self, title@, site_name@, url@),
    {
        let mut header = String::new();
        header.append("\n<meta property=\"og:type\" content=\"");
        header.append(self.typ.as_str());
        header.append("\">\n<meta property=\"og:title\" content=\"");
        header.append(title);
        header.append("\">\n<meta property=\"og:site_name\" content=\"");
        header.append(site_name);
        header.append("\">\n<meta property=\"og:description\" content=\"");
        header.append(self.description.as_str());
        header.append("\">\n<meta property=\"og:url\" content=\"");
        header.append(url);
        header.append("\">\n    ");
        let ghost head = header@;
        if let Some(img) = &self.image {
            header.append("<meta property=\"og:image\" content=\"");
            header.append(img.url.as_str());
            header.append("\">");
            let ghost mid = header@;
            if let Some(alt) = &img.alt {
                header.append("<meta property=\"og:image:alt\" content=\"");
                header.append(alt.as_str());
                header.append("\">");
            }
            let ghost after_alt = header@;
            header.append("<meta property=\"og:image:width\" content=\"");
            let w = decimal_string(img.width);
            header.append(w.as_str());
            header.append("\">");
            header.append("<meta property=\"og:image:height\" content=\"");
            let h = decimal_string(img.height);
            header.append(h.as_str());
            header.append("\">");
            assert(header@ =~= head + image_meta(*img));
        }
        assert(header@ =~= ogp_html(*self, title@, site_name@, url@));
        header
    }
}

} // verus!
