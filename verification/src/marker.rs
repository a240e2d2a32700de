use vstd::prelude::*;
use vstd::string::StrSliceExecFns;
use vstd::string::StringExecFns;

verus! {

/// A text run qualifies as a class marker iff it is longer than the four
/// characters of `{:.}`, starts with the literal `{:.` and ends with `}`.
pub open spec fn is_marker(t: Seq<char>) -> bool {
    t.len() > 4 && t[0] == '{' && t[1] == ':' && t[2] == '.' && t[t.len() - 1] == '}'
}

/// The class-list payload of a marker: everything strictly between `{:.`
/// and the final `}`, kept verbatim (it may hold several space-separated
/// class names; they are never re-split or re-joined).
pub open spec fn class_list(t: Seq<char>) -> Seq<char> {
    t.subrange(3, t.len() - 1)
}

/// The wrapper-open fragment carrying a class list.
pub open spec fn open_frag(cls: Seq<char>) -> Seq<char> {
    "<div class=\""@ + cls + "\">"@
}

/// The fixed wrapper-close fragment.
pub open spec fn close_frag() -> Seq<char> {
    "</div>"@
}

/// Decides the marker grammar on a text run.
pub fn marker_check(t: &str) -> (r: bool)
    ensures
        r == is_marker(t@),
{
    let n = t.unicode_len();
    n > 4 && t.get_char(0) == '{' && t.get_char(1) == ':' && t.get_char(2) == '.' && t.get_char(
        n - 1,
    ) == '}'
}

/// Extracts the class-list payload of a marker text.
pub fn class_of(t: &str) -> (r: &str)
    requires
        is_marker(t@),
    ensures
        r@ == class_list(t@),
{
    let n = t.unicode_len();
    t.substring_char(3, n - 1)
}

/// Builds the wrapper-open fragment for a class list.
pub fn open_fragment(cls: &str) -> (r: String)
    ensures
        r@ == open_frag(cls@),
{
    let mut s = String::from_str("<div class=\"");
    s.append(cls);
    s.append("\">");
    proof {
        assert(s@ =~= open_frag(cls@));
    }
    s
}

/// Builds the fixed wrapper-close fragment.
pub fn close_fragment() -> (r: String)
    ensures
        r@ == close_frag(),
{
    String::from_str("</div>")
}

} // verus!

