//! What the browser chooser dialog shows and what a choice in it means.
use crate::browser_discovery::{browser_name_in, browser_name_spec, PathStyle};
use crate::text::{chars_of, push_str_chars, same_chars, string_of, string_views};
use vstd::prelude::*;

verus! {

/// Result of asking the user to choose a browser in the dialog.
#[derive(Debug)]
pub enum GuiChooserOutcome {
    Selected { browser_path: String, save_rule: bool },
    Cancelled,
    Unavailable,
}

/// How many of `browsers` are shown under the name `name`, paths read in
/// `style`.
pub open spec fn count_named(browsers: Seq<Seq<char>>, name: Seq<char>, style: PathStyle) -> nat
    decreases browsers.len(),
{
    if browsers.len() == 0 {
        0
    } else {
        count_named(browsers.drop_last(), name, style) + if browser_name_spec(browsers.last(), style)
            == name {
            1nat
        } else {
            0nat
        }
    }
}

/// The label of a browser in the dialog: its name, followed by its path in
/// parentheses when several listed browsers share that name; paths read in
/// `style`.
pub open spec fn display_name_spec(path: Seq<char>, browsers: Seq<Seq<char>>, style: PathStyle) -> Seq<char> {
    let name = browser_name_spec(path, style);
    if count_named(browsers, name, style) > 1 {
        name + " ("@ + path + ")"@
    } else {
        name
    }
}

/// `count_named` never exceeds the number of browsers.
proof fn lemma_count_bounded(browsers: Seq<Seq<char>>, name: Seq<char>, style: PathStyle)
    ensures
        count_named(browsers, name, style) <= browsers.len(),
    decreases browsers.len(),
{
    if browsers.len() > 0 {
        lemma_count_bounded(browsers.drop_last(), name, style);
    }
}

/// The label of `browser_path` among `browsers`, paths read in `style`.
pub fn browser_display_name(browser_path: &str, browsers: &[String], style: PathStyle) -> (r:
    String)
    ensures
        r@ == display_name_spec(browser_path@, string_views(browsers@), style),
{
    let name = browser_name_in(browser_path, style);
    let name_chars = chars_of(name.as_str());
    let ghost bs = string_views(browsers@);
    let mut count: usize = 0;
    let mut i: usize = 0;
    while i < browsers.len()
        invariant
            i <= browsers.len(),
            bs == string_views(browsers@),
            name_chars@ == browser_name_spec(browser_path@, style),
            count == count_named(bs.take(i as int), name_chars@, style),
        decreases browsers.len() - i,
    {
        assert(bs.take(i + 1).drop_last() =~= bs.take(i as int));
        assert(bs.take(i + 1).last() == browsers@[i as int]@);
        proof {
            lemma_count_bounded(bs.take(i as int), name_chars@, style);
        }
        let other = browser_name_in(browsers[i].as_str(), style);
        let other_chars = chars_of(other.as_str());
        if same_chars(&other_chars, &name_chars) {
            count += 1;
        }
        i += 1;
    }
    assert(bs.take(browsers.len() as int) =~= bs);
    if count > 1 {
        let mut v = name_chars;
        push_str_chars(&mut v, " (");
        push_str_chars(&mut v, browser_path);
        push_str_chars(&mut v, ")");
        string_of(&v)
    } else {
        name
    }
}

/// The outcome of clicking the browser at `index` in the dialog, `None`
/// when the index names no listed browser.
pub fn gui_selection_outcome(index: i32, save_rule: bool, browsers: &[String]) -> (r: Option<
    GuiChooserOutcome,
>)
    ensures
        match r {
            Some(GuiChooserOutcome::Selected { browser_path, save_rule: s }) => 0 <= index
                < browsers.len() && browser_path@ == browsers@[index as int]@ && s == save_rule,
            Some(_) => false,
            None => !(0 <= index < browsers.len()),
        },
{
    if index >= 0 && (index as usize) < browsers.len() {
        let i = index as usize;
        Some(GuiChooserOutcome::Selected { browser_path: browsers[i].clone(), save_rule })
    } else {
        None
    }
}

/// Two listed browsers with the same name make the name count at least two.
proof fn lemma_count_two(browsers: Seq<Seq<char>>, name: Seq<char>, style: PathStyle, i: int, j: int)
    requires
        0 <= i < j < browsers.len(),
        browser_name_spec(browsers[i], style) == name,
        browser_name_spec(browsers[j], style) == name,
    ensures
        count_named(browsers, name, style) >= 2,
    decreases browsers.len(),
{
    if j < browsers.len() - 1 {
        lemma_count_two(browsers.drop_last(), name, style, i, j);
    } else {
        lemma_count_one(browsers.drop_last(), name, style, i);
    }
}

/// A listed browser with the name makes the name count at least one.
proof fn lemma_count_one(browsers: Seq<Seq<char>>, name: Seq<char>, style: PathStyle, i: int)
    requires
        0 <= i < browsers.len(),
        browser_name_spec(browsers[i], style) == name,
    ensures
        count_named(browsers, name, style) >= 1,
    decreases browsers.len(),
{
    if i < browsers.len() - 1 {
        lemma_count_one(browsers.drop_last(), name, style, i);
    }
}

/// Two different listed browsers shown under the same name get different
/// labels in the dialog.
pub proof fn lemma_labels_distinguish_same_name(
    browsers: Seq<Seq<char>>,
    style: PathStyle,
    i: int,
    j: int,
)
    requires
        0 <= i < browsers.len(),
        0 <= j < browsers.len(),
        browsers[i] != browsers[j],
        browser_name_spec(browsers[i], style) == browser_name_spec(browsers[j], style),
    ensures
        display_name_spec(browsers[i], browsers, style) != display_name_spec(
            browsers[j],
            browsers,
            style,
        ),
{
    let name = browser_name_spec(browsers[i], style);
    if i < j {
        lemma_count_two(browsers, name, style, i, j);
    } else {
        lemma_count_two(browsers, name, style, j, i);
    }
    let li = display_name_spec(browsers[i], browsers, style);
    let lj = display_name_spec(browsers[j], browsers, style);
    let open = " ("@;
    let close = ")"@;
    if li == lj {
        let pre = name + open;
        assert(li == pre + browsers[i] + close);
        assert(lj == pre + browsers[j] + close);
        assert(li.len() == pre.len() + browsers[i].len() + close.len());
        assert(lj.len() == pre.len() + browsers[j].len() + close.len());
        assert(browsers[i].len() == browsers[j].len());
        assert(browsers[i] =~= li.subrange(pre.len() as int, (pre.len() + browsers[i].len()) as int));
        assert(browsers[j] =~= lj.subrange(pre.len() as int, (pre.len() + browsers[j].len()) as int));
    }
}

} // verus!
