//! Fonts that subtitles may name, where they are fetched from, and the
//! on-disk cache that keeps them.

use vstd::prelude::*;
use vstd::string::*;
use crate::text::{chars_of, push_str, string_of};

verus! {

/// Where the font files are served from; a file name follows.
pub const FONT_BASE_URL: &'static str = "https://static.crunchyroll.com/vilos-v2/web/vilos/assets/libass-fonts/";

/// The fonts that can be fetched: each font name with its file name.
pub open spec fn font_table() -> Seq<(Seq<char>, Seq<char>)> {
    seq![
        ("Adobe Arabic"@, "AdobeArabic-Bold.woff2"@),
        ("Andale Mono"@, "andalemo.woff2"@),
        ("Arial"@, "arial.woff2"@),
        ("Arial Black"@, "ariblk.woff2"@),
        ("Arial Bold"@, "arialbd.woff2"@),
        ("Arial Bold Italic"@, "arialbi.woff2"@),
        ("Arial Italic"@, "ariali.woff2"@),
        ("Arial Unicode MS"@, "arialuni.woff2"@),
        ("Comic Sans MS"@, "comic.woff2"@),
        ("Comic Sans MS Bold"@, "comicbd.woff2"@),
        ("Courier New"@, "cour.woff2"@),
        ("Courier New Bold"@, "courbd.woff2"@),
        ("Courier New Bold Italic"@, "courbi.woff2"@),
        ("Courier New Italic"@, "couri.woff2"@),
        ("DejaVu LGC Sans Mono"@, "DejaVuLGCSansMono.woff2"@),
        ("DejaVu LGC Sans Mono Bold"@, "DejaVuLGCSansMono-Bold.woff2"@),
        ("DejaVu LGC Sans Mono Bold Oblique"@, "DejaVuLGCSansMono-BoldOblique.woff2"@),
        ("DejaVu LGC Sans Mono Oblique"@, "DejaVuLGCSansMono-Oblique.woff2"@),
        ("DejaVu Sans"@, "DejaVuSans.woff2"@),
        ("DejaVu Sans Bold"@, "DejaVuSans-Bold.woff2"@),
        ("DejaVu Sans Bold Oblique"@, "DejaVuSans-BoldOblique.woff2"@),
        ("DejaVu Sans Condensed"@, "DejaVuSansCondensed.woff2"@),
        ("DejaVu Sans Condensed Bold"@, "DejaVuSansCondensed-Bold.woff2"@),
        ("DejaVu Sans Condensed Bold Oblique"@, "DejaVuSansCondensed-BoldOblique.woff2"@),
        ("DejaVu Sans Condensed Oblique"@, "DejaVuSansCondensed-Oblique.woff2"@),
        ("DejaVu Sans ExtraLight"@, "DejaVuSans-ExtraLight.woff2"@),
        ("DejaVu Sans Mono"@, "DejaVuSansMono.woff2"@),
        ("DejaVu Sans Mono Bold"@, "DejaVuSansMono-Bold.woff2"@),
        ("DejaVu Sans Mono Bold Oblique"@, "DejaVuSansMono-BoldOblique.woff2"@),
        ("DejaVu Sans Mono Oblique"@, "DejaVuSansMono-Oblique.woff2"@),
        ("DejaVu Sans Oblique"@, "DejaVuSans-Oblique.woff2"@),
        ("Gautami"@, "gautami.woff2"@),
        ("Georgia"@, "georgia.woff2"@),
        ("Georgia Bold"@, "georgiab.woff2"@),
        ("Georgia Bold Italic"@, "georgiaz.woff2"@),
        ("Georgia Italic"@, "georgiai.woff2"@),
        ("Impact"@, "impact.woff2"@),
        ("Mangal"@, "MANGAL.woff2"@),
        ("Meera Inimai"@, "MeeraInimai-Regular.woff2"@),
        ("Noto Sans Tamil"@, "NotoSansTamil.woff2"@),
        ("Noto Sans Telugu"@, "NotoSansTelegu.woff2"@),
        ("Noto Sans Thai"@, "NotoSansThai.woff2"@),
        ("Rubik"@, "Rubik-Regular.woff2"@),
        ("Rubik Black"@, "Rubik-Black.woff2"@),
        ("Rubik Black Italic"@, "Rubik-BlackItalic.woff2"@),
        ("Rubik Bold"@, "Rubik-Bold.woff2"@),
        ("Rubik Bold Italic"@, "Rubik-BoldItalic.woff2"@),
        ("Rubik Italic"@, "Rubik-Italic.woff2"@),
        ("Rubik Light"@, "Rubik-Light.woff2"@),
        ("Rubik Light Italic"@, "Rubik-LightItalic.woff2"@),
        ("Rubik Medium"@, "Rubik-Medium.woff2"@),
        ("Rubik Medium Italic"@, "Rubik-MediumItalic.woff2"@),
        ("Tahoma"@, "tahoma.woff2"@),
        ("Times New Roman"@, "times.woff2"@),
        ("Times New Roman Bold"@, "timesbd.woff2"@),
        ("Times New Roman Bold Italic"@, "timesbi.woff2"@),
        ("Times New Roman Italic"@, "timesi.woff2"@),
        ("Trebuchet MS"@, "trebuc.woff2"@),
        ("Trebuchet MS Bold"@, "trebucbd.woff2"@),
        ("Trebuchet MS Bold Italic"@, "trebucbi.woff2"@),
        ("Trebuchet MS Italic"@, "trebucit.woff2"@),
        ("Verdana"@, "verdana.woff2"@),
        ("Verdana Bold"@, "verdanab.woff2"@),
        ("Verdana Bold Italic"@, "verdanaz.woff2"@),
        ("Verdana Italic"@, "verdanai.woff2"@),
        ("Vrinda"@, "vrinda.woff2"@),
        ("Vrinda Bold"@, "vrindab.woff2"@),
        ("Webdings"@, "webdings.woff2"@)
    ]
}

pub open spec fn pair_views(t: Seq<(String, String)>) -> Seq<(Seq<char>, Seq<char>)> {
    t.map_values(|p: (String, String)| (p.0@, p.1@))
}

/// The fonts that can be fetched: each font name with its file name.
pub fn fonts() -> (r: Vec<(String, String)>)
    ensures
        pair_views(r@) == font_table(),
{
    let mut t: Vec<(String, String)> = Vec::new();
    t.push((String::from_str("Adobe Arabic"), String::from_str("AdobeArabic-Bold.woff2")));
    t.push((String::from_str("Andale Mono"), String::from_str("andalemo.woff2")));
    t.push((String::from_str("Arial"), String::from_str("arial.woff2")));
    t.push((String::from_str("Arial Black"), String::from_str("ariblk.woff2")));
    t.push((String::from_str("Arial Bold"), String::from_str("arialbd.woff2")));
    t.push((String::from_str("Arial Bold Italic"), String::from_str("arialbi.woff2")));
    t.push((String::from_str("Arial Italic"), String::from_str("ariali.woff2")));
    t.push((String::from_str("Arial Unicode MS"), String::from_str("arialuni.woff2")));
    t.push((String::from_str("Comic Sans MS"), String::from_str("comic.woff2")));
    t.push((String::from_str("Comic Sans MS Bold"), String::from_str("comicbd.woff2")));
    t.push((String::from_str("Courier New"), String::from_str("cour.woff2")));
    t.push((String::from_str("Courier New Bold"), String::from_str("courbd.woff2")));
    t.push((String::from_str("Courier New Bold Italic"), String::from_str("courbi.woff2")));
    t.push((String::from_str("Courier New Italic"), String::from_str("couri.woff2")));
    t.push((String::from_str("DejaVu LGC Sans Mono"), String::from_str("DejaVuLGCSansMono.woff2")));
    t.push((String::from_str("DejaVu LGC Sans Mono Bold"), String::from_str("DejaVuLGCSansMono-Bold.woff2")));
    t.push((String::from_str("DejaVu LGC Sans Mono Bold Oblique"), String::from_str("DejaVuLGCSansMono-BoldOblique.woff2")));
    t.push((String::from_str("DejaVu LGC Sans Mono Oblique"), String::from_str("DejaVuLGCSansMono-Oblique.woff2")));
    t.push((String::from_str("DejaVu Sans"), String::from_str("DejaVuSans.woff2")));
    t.push((String::from_str("DejaVu Sans Bold"), String::from_str("DejaVuSans-Bold.woff2")));
    t.push((String::from_str("DejaVu Sans Bold Oblique"), String::from_str("DejaVuSans-BoldOblique.woff2")));
    t.push((String::from_str("DejaVu Sans Condensed"), String::from_str("DejaVuSansCondensed.woff2")));
    t.push((String::from_str("DejaVu Sans Condensed Bold"), String::from_str("DejaVuSansCondensed-Bold.woff2")));
    t.push((String::from_str("DejaVu Sans Condensed Bold Oblique"), String::from_str("DejaVuSansCondensed-BoldOblique.woff2")));
    t.push((String::from_str("DejaVu Sans Condensed Oblique"), String::from_str("DejaVuSansCondensed-Oblique.woff2")));
    t.push((String::from_str("DejaVu Sans ExtraLight"), String::from_str("DejaVuSans-ExtraLight.woff2")));
    t.push((String::from_str("DejaVu Sans Mono"), String::from_str("DejaVuSansMono.woff2")));
    t.push((String::from_str("DejaVu Sans Mono Bold"), String::from_str("DejaVuSansMono-Bold.woff2")));
    t.push((String::from_str("DejaVu Sans Mono Bold Oblique"), String::from_str("DejaVuSansMono-BoldOblique.woff2")));
    t.push((String::from_str("DejaVu Sans Mono Oblique"), String::from_str("DejaVuSansMono-Oblique.woff2")));
    t.push((String::from_str("DejaVu Sans Oblique"), String::from_str("DejaVuSans-Oblique.woff2")));
    t.push((String::from_str("Gautami"), String::from_str("gautami.woff2")));
    t.push((String::from_str("Georgia"), String::from_str("georgia.woff2")));
    t.push((String::from_str("Georgia Bold"), String::from_str("georgiab.woff2")));
    t.push((String::from_str("Georgia Bold Italic"), String::from_str("georgiaz.woff2")));
    t.push((String::from_str("Georgia Italic"), String::from_str("georgiai.woff2")));
    t.push((String::from_str("Impact"), String::from_str("impact.woff2")));
    t.push((String::from_str("Mangal"), String::from_str("MANGAL.woff2")));
    t.push((String::from_str("Meera Inimai"), String::from_str("MeeraInimai-Regular.woff2")));
    t.push((String::from_str("Noto Sans Tamil"), String::from_str("NotoSansTamil.woff2")));
    t.push((String::from_str("Noto Sans Telugu"), String::from_str("NotoSansTelegu.woff2")));
    t.push((String::from_str("Noto Sans Thai"), String::from_str("NotoSansThai.woff2")));
    t.push((String::from_str("Rubik"), String::from_str("Rubik-Regular.woff2")));
    t.push((String::from_str("Rubik Black"), String::from_str("Rubik-Black.woff2")));
    t.push((String::from_str("Rubik Black Italic"), String::from_str("Rubik-BlackItalic.woff2")));
    t.push((String::from_str("Rubik Bold"), String::from_str("Rubik-Bold.woff2")));
    t.push((String::from_str("Rubik Bold Italic"), String::from_str("Rubik-BoldItalic.woff2")));
    t.push((String::from_str("Rubik Italic"), String::from_str("Rubik-Italic.woff2")));
    t.push((String::from_str("Rubik Light"), String::from_str("Rubik-Light.woff2")));
    t.push((String::from_str("Rubik Light Italic"), String::from_str("Rubik-LightItalic.woff2")));
    t.push((String::from_str("Rubik Medium"), String::from_str("Rubik-Medium.woff2")));
    t.push((String::from_str("Rubik Medium Italic"), String::from_str("Rubik-MediumItalic.woff2")));
    t.push((String::from_str("Tahoma"), String::from_str("tahoma.woff2")));
    t.push((String::from_str("Times New Roman"), String::from_str("times.woff2")));
    t.push((String::from_str("Times New Roman Bold"), String::from_str("timesbd.woff2")));
    t.push((String::from_str("Times New Roman Bold Italic"), String::from_str("timesbi.woff2")));
    t.push((String::from_str("Times New Roman Italic"), String::from_str("timesi.woff2")));
    t.push((String::from_str("Trebuchet MS"), String::from_str("trebuc.woff2")));
    t.push((String::from_str("Trebuchet MS Bold"), String::from_str("trebucbd.woff2")));
    t.push((String::from_str("Trebuchet MS Bold Italic"), String::from_str("trebucbi.woff2")));
    t.push((String::from_str("Trebuchet MS Italic"), String::from_str("trebucit.woff2")));
    t.push((String::from_str("Verdana"), String::from_str("verdana.woff2")));
    t.push((String::from_str("Verdana Bold"), String::from_str("verdanab.woff2")));
    t.push((String::from_str("Verdana Bold Italic"), String::from_str("verdanaz.woff2")));
    t.push((String::from_str("Verdana Italic"), String::from_str("verdanai.woff2")));
    t.push((String::from_str("Vrinda"), String::from_str("vrinda.woff2")));
    t.push((String::from_str("Vrinda Bold"), String::from_str("vrindab.woff2")));
    t.push((String::from_str("Webdings"), String::from_str("webdings.woff2")));
    assert(pair_views(t@) =~= font_table());
    t
}

/// The file of the first entry of `table` named `name`.
pub open spec fn file_in(table: Seq<(Seq<char>, Seq<char>)>, name: Seq<char>) -> Option<Seq<char>>
    decreases table.len(),
{
    if table.len() == 0 {
        None
    } else if table[0].0 == name {
        Some(table[0].1)
    } else {
        file_in(table.drop_first(), name)
    }
}

/// The file holding font `name`, if it is one that can be fetched.
pub fn font_file(name: &str) -> (r: Option<String>)
    ensures
        r matches Some(f) ==> file_in(font_table(), name@) == Some(f@),
        r is None ==> file_in(font_table(), name@) is None,
{
    let table = fonts();
    let wanted = String::from_str(name);
    let ghost t = pair_views(table@);
    let mut i: usize = 0;
    assert(t.skip(0) =~= t);
    while i < table.len()
        invariant
            t == pair_views(table@),
            t == font_table(),
            i <= table.len(),
            file_in(t, name@) == file_in(t.skip(i as int), name@),
            wanted@ == name@,
        decreases table.len() - i,
    {
        assert(t.skip(i as int).drop_first() =~= t.skip(i + 1));
        if table[i].0 == wanted {
            return Some(table[i].1.clone());
        }
        i = i + 1;
    }
    None
}

/// The address a font file is fetched from.
pub fn font_url(file: &str) -> (r: String)
    ensures
        r@ == FONT_BASE_URL@ + file@,
{
    let mut v = chars_of(FONT_BASE_URL);
    push_str(&mut v, file);
    string_of(&v)
}

/// How a font is obtained: from the cache, or fetched and then kept there.
pub struct FontFetch {
    pub file: String,
    pub url: String,
    pub cached: bool,
}

/// How to obtain font `name`, given whether its file is in the cache;
/// `None` for a font that cannot be fetched.
pub fn font_fetch(name: &str, in_cache: bool) -> (r: Option<FontFetch>)
    ensures
        r is None <==> file_in(font_table(), name@) is None,
        r matches Some(f) ==> {
            &&& file_in(font_table(), name@) == Some(f.file@)
            &&& f.url@ == FONT_BASE_URL@ + f.file@
            &&& f.cached == in_cache
        },
{
    match font_file(name) {
        None => None,
        Some(file) => {
            let url = font_url(file.as_str());
            Some(FontFetch { file, url, cached: in_cache })
        },
    }
}

/// Fetching font `name` against a cache holding the files of `disk`, where
/// a download would bring `body`: the file and whether it was cached, and
/// the cache afterwards.
pub open spec fn fetch_font(disk: Map<Seq<char>, Seq<u8>>, name: Seq<char>, body: Seq<u8>) -> (Option<(Seq<char>, bool)>, Map<Seq<char>, Seq<u8>>) {
    match file_in(font_table(), name) {
        None => (None, disk),
        Some(file) => if disk.contains_key(file) {
            (Some((file, true)), disk)
        } else {
            (Some((file, false)), disk.insert(file, body))
        },
    }
}

/// Fetching the same font twice gives the same file, the second time from
/// the cache, and the second fetch leaves the cache as the first left it.
pub proof fn lemma_font_cache_idempotent(disk: Map<Seq<char>, Seq<u8>>, name: Seq<char>, first: Seq<u8>, second: Seq<u8>)
    ensures
        ({
            let (r1, d1) = fetch_font(disk, name, first);
            let (r2, d2) = fetch_font(d1, name, second);
            &&& r1 is None <==> r2 is None
            &&& r1 matches Some((f, _)) ==> r2 == Some((f, true)) && d2 == d1 && d1.contains_key(f)
        }),
{
}

} // verus!
