//! Rendering an engine reply as a table: the table-shape choices, the
//! colorize rule parser, and the HTML form of a table of already-formatted
//! cells. The terminal table itself and the JSON decoding around it live
//! with the surrounding program.

use vstd::prelude::*;
use crate::text::{first_index, lemma_first_index, find_char};

verus! {

/// A table's header row: named columns, or one unnamed value column.
pub enum TableHeader {
    NamedFields { fields: Vec<String> },
    SingleUnnamedColumn,
}

/// The mathematical image of a `TableHeader`.
pub ghost enum HeaderView {
    Named(Seq<Seq<char>>),
    Single,
}

impl View for TableHeader {
    type V = HeaderView;

    open spec fn view(&self) -> HeaderView {
        match self {
            TableHeader::NamedFields { fields } => HeaderView::Named(fields.deep_view()),
            TableHeader::SingleUnnamedColumn => HeaderView::Single,
        }
    }
}

/// The two terminal table styles.
#[derive(Debug)]
pub enum PlainTextTableFormat {
    Default,
    Markdown,
}

/// The two HTML table styles.
#[derive(Debug)]
pub enum HtmlTableFormat {
    Raw,
    Styled,
}

/// How a reply is rendered: as a terminal table or as HTML.
#[derive(Debug)]
pub enum TableFormat {
    PlainText(PlainTextTableFormat),
    Html(HtmlTableFormat),
}

impl TableFormat {
    /// Reads a format name; any other name is reported back in the error.
    pub fn from_str(s: &str) -> (r: Result<TableFormat, String>)
        ensures
            s@ == "default"@ ==> r == Ok::<TableFormat, String>(
                TableFormat::PlainText(PlainTextTableFormat::Default),
            ),
            s@ == "markdown"@ ==> r == Ok::<TableFormat, String>(
                TableFormat::PlainText(PlainTextTableFormat::Markdown),
            ),
            s@ == "html"@ ==> r == Ok::<TableFormat, String>(
                TableFormat::Html(HtmlTableFormat::Styled),
            ),
            s@ == "html-raw"@ ==> r == Ok::<TableFormat, String>(
                TableFormat::Html(HtmlTableFormat::Raw),
            ),
            s@ != "default"@ && s@ != "markdown"@ && s@ != "html"@ && s@ != "html-raw"@ ==> (
            r is Err && r->Err_0@ == "unknown format: "@ + s@),
    {
        proof {
            reveal_strlit("default");
            reveal_strlit("markdown");
            reveal_strlit("html");
            reveal_strlit("html-raw");
            assert("html"@.len() == 4);
            assert("html-raw"@.len() == 8);
            assert("markdown"@.len() == 8);
            assert("html"@ != "html-raw"@);
            assert("markdown"@ != "html-raw"@) by {
                assert("markdown"@[0] == 'm');
                assert("html-raw"@[0] == 'h');
            }
        }
        if crate::text::str_eq(s, "default") {
            Ok(TableFormat::PlainText(PlainTextTableFormat::Default))
        } else if crate::text::str_eq(s, "markdown") {
            Ok(TableFormat::PlainText(PlainTextTableFormat::Markdown))
        } else if crate::text::str_eq(s, "html") {
            Ok(TableFormat::Html(HtmlTableFormat::Styled))
        } else if crate::text::str_eq(s, "html-raw") {
            Ok(TableFormat::Html(HtmlTableFormat::Raw))
        } else {
            Err(String::from_str("unknown format: ").concat(s))
        }
    }
}

/// An ASCII letter.
pub open spec fn is_ascii_alpha(c: char) -> bool {
    (97 <= c as int && c as int <= 122) || (65 <= c as int && c as int <= 90)
}

/// The position of the last occurrence of `c` in `s`, or -1 when absent.
pub open spec fn last_index(s: Seq<char>, c: char) -> int
    decreases s.len(),
{
    if s.len() == 0 {
        -1
    } else if s.last() == c {
        s.len() - 1
    } else {
        last_index(s.drop_last(), c)
    }
}

proof fn lemma_last_index_at(s: Seq<char>, c: char, i: int)
    requires
        0 <= i < s.len(),
        s[i] == c,
        forall|j: int| i < j < s.len() ==> s[j] != c,
    ensures
        last_index(s, c) == i,
    decreases s.len(),
{
    if i < s.len() - 1 {
        assert(s.last() != c);
        lemma_last_index_at(s.drop_last(), c, i);
    }
}

/// A colorize rule, written `field:value:style`: the style to give a cell
/// of the named column holding the given text.
#[derive(Debug)]
pub struct ColorizeSpec {
    pub field: String,
    pub value: String,
    pub style: String,
}

/// The parse of a colorize rule: the text before the first `:` names the
/// field (at least one character, no `:`), the text after the last `:` is
/// the style (at least one ASCII letter, nothing else), and the value
/// between them is non-empty and may itself hold `:`.
pub open spec fn spec_colorize(s: Seq<char>) -> Option<(Seq<char>, Seq<char>, Seq<char>)> {
    let f = first_index(s, ':');
    let q = last_index(s, ':');
    if f >= 1 && q >= f + 2 && q + 1 < s.len() && (forall|k: int|
        q < k < s.len() ==> is_ascii_alpha(s[k]))
    {
        Some((s.take(f), s.subrange(f + 1, q), s.skip(q + 1)))
    } else {
        None
    }
}

impl ColorizeSpec {
    /// Parses a colorize rule of the form `field:value:style`.
    pub fn parse(s: &String) -> (r: Result<ColorizeSpec, String>)
        ensures
            match r {
                Ok(c) => spec_colorize(s@) == Some((c.field@, c.value@, c.style@)),
                Err(_) => spec_colorize(s@) is None,
            },
    {
        let n = s.as_str().unicode_len();
        let f_opt = find_char(s.as_str(), ':');
        proof {
            lemma_first_index(s@, ':');
        }
        let f = match f_opt {
            None => {
                return Err(Self::bad_rule());
            },
            Some(f) => f,
        };
        // the last colon: scan backwards
        let mut q: usize = n;
        let mut found = false;
        let mut j = n;
        while j > f
            invariant
                f <= j <= n,
                n == s@.len(),
                f == first_index(s@, ':'),
                0 <= f < n,
                !found ==> forall|k: int| j <= k < n ==> s@[k] != ':',
                found ==> f <= q && (q as int) < n && s@[q as int] == ':' && (forall|k: int|
                    q < k < n ==> s@[k] != ':'),
            decreases j,
        {
            if !found && s.as_str().get_char(j - 1) == ':' {
                q = j - 1;
                found = true;
            }
            j = j - 1;
        }
        proof {
            if found {
                lemma_last_index_at(s@, ':', q as int);
            }
            assert(s@[f as int] == ':');
        }
        // the first colon is a colon, so the last one was found
        proof {
            assert(found) by {
                if !found {
                    assert(s@[f as int] != ':');
                }
            }
        }
        if !(f >= 1 && q > f && q - f >= 2 && q + 1 < n) {
            return Err(Self::bad_rule());
        }
        // the style must be ASCII letters only
        let mut k = q + 1;
        while k < n
            invariant
                q + 1 <= k <= n,
                n == s@.len(),
                f == first_index(s@, ':'),
                q as int == last_index(s@, ':'),
                1 <= f,
                f + 2 <= q as int,
                q + 1 < n,
                forall|m: int| q < m < k ==> is_ascii_alpha(s@[m]),
            decreases n - k,
        {
            let code = s.as_str().get_char(k) as u32;
            if !((code >= 97 && code <= 122) || (code >= 65 && code <= 90)) {
                return Err(Self::bad_rule());
            }
            k = k + 1;
        }
        let field = String::from_str(s.as_str().substring_char(0, f));
        let value = String::from_str(s.as_str().substring_char(f + 1, q));
        let style = String::from_str(s.as_str().substring_char(q + 1, n));
        proof {
            assert(field@ =~= s@.take(f as int));
            assert(value@ =~= s@.subrange(f + 1, q as int));
            assert(style@ =~= s@.skip(q + 1));
        }
        Ok(ColorizeSpec { field, value, style })
    }

    fn bad_rule() -> (r: String)
        ensures
            r@ == "wrong colorize expression. Should be in the form of : 'field:value:spec'"@,
    {
        String::from_str("wrong colorize expression. Should be in the form of : 'field:value:spec'")
    }
}

/// The HTML of one row of already-formatted cells, first `n` cells.
pub open spec fn spec_html_cells(row: Seq<Seq<char>>, n: int) -> Seq<char>
    decreases n,
{
    if n <= 0 {
        Seq::empty()
    } else {
        spec_html_cells(row, n - 1) + "<td><pre>"@ + row[n - 1] + "</pre></td>"@
    }
}

/// The HTML of the first `n` data rows.
pub open spec fn spec_html_rows(rows: Seq<Seq<Seq<char>>>, n: int) -> Seq<char>
    decreases n,
{
    if n <= 0 {
        Seq::empty()
    } else {
        spec_html_rows(rows, n - 1) + "<tr>"@ + spec_html_cells(
            rows[n - 1],
            rows[n - 1].len() as int,
        ) + "</tr>"@
    }
}

/// The HTML of the header cells of the first `n` named columns.
pub open spec fn spec_html_header_cells(fields: Seq<Seq<char>>, n: int) -> Seq<char>
    decreases n,
{
    if n <= 0 {
        Seq::empty()
    } else {
        spec_html_header_cells(fields, n - 1) + "<th>"@ + fields[n - 1] + "</th>"@
    }
}

/// The HTML header row.
pub open spec fn spec_html_header(h: HeaderView) -> Seq<char> {
    match h {
        HeaderView::Named(fields) => "<tr>"@ + spec_html_header_cells(
            fields,
            fields.len() as int,
        ) + "</tr>"@,
        HeaderView::Single => "<tr>"@ + "<th>Value</th>"@ + "</tr>"@,
    }
}

/// The stylesheet block the styled HTML form starts with.
pub open spec fn spec_html_style_block() -> Seq<char> {
    "\n    <link\n      rel=\"stylesheet\"\n      href=\"https://stackpath.bootstrapcdn.com/bootstrap/4.5.2/css/bootstrap.min.css\"\n      integrity=\"sha384-JcKb8q3iqJ61gNV9KGb8thSsNjpSL0n8PARn9HuZOnIxN0hoP+VmmDGMN5t9UJ0Z\"\n      crossorigin=\"anonymous\">\n"@
}

/// The whole HTML form of a table: the opening tag (with the stylesheet
/// block in the styled form), the header row, every data row, and the
/// closing tag.
pub open spec fn spec_html_table(h: HeaderView, rows: Seq<Seq<Seq<char>>>, styled: bool) -> Seq<
    char,
> {
    (if styled {
        spec_html_style_block() + "<table class=\"table table-bordered table-hover\">"@
    } else {
        "<table>"@
    }) + spec_html_header(h) + spec_html_rows(rows, rows.len() as int) + "</table>"@
}

/// Renders a table of already-formatted cells as HTML, cell order kept.
pub fn html_table(header: &TableHeader, rows: &Vec<Vec<String>>, format: &HtmlTableFormat) -> (r:
    String)
    ensures
        r@ == spec_html_table(header@, rows.deep_view(), format is Styled),
{
    let mut out: String = match format {
        HtmlTableFormat::Raw => String::from_str("<table>"),
        HtmlTableFormat::Styled => String::from_str(
            "\n    <link\n      rel=\"stylesheet\"\n      href=\"https://stackpath.bootstrapcdn.com/bootstrap/4.5.2/css/bootstrap.min.css\"\n      integrity=\"sha384-JcKb8q3iqJ61gNV9KGb8thSsNjpSL0n8PARn9HuZOnIxN0hoP+VmmDGMN5t9UJ0Z\"\n      crossorigin=\"anonymous\">\n",
        ).concat("<table class=\"table table-bordered table-hover\">"),
    };
    let ghost opening = out@;

    out.append("<tr>");
    match header {
        TableHeader::NamedFields { fields } => {
            let nf = fields.len();
            let mut i: usize = 0;
            while i < nf
                invariant
                    i <= nf,
                    nf == fields@.len(),
                    out@ == opening + "<tr>"@ + spec_html_header_cells(
                        fields.deep_view(),
                        i as int,
                    ),
            decreases nf - i,
            {
                out.append("<th>");
                out.append(fields[i].as_str());
                out.append("</th>");
                i = i + 1;
            }
        },
        TableHeader::SingleUnnamedColumn => {
            out.append("<th>Value</th>");
        },
    }
    out.append("</tr>");
    proof {
        assert(out@ == opening + spec_html_header(header@));
    }
    let ghost with_header = out@;

    let nr = rows.len();
    let mut j: usize = 0;
    while j < nr
        invariant
            j <= nr,
            nr == rows@.len(),
            out@ == with_header + spec_html_rows(rows.deep_view(), j as int),
        decreases nr - j,
    {
        out.append("<tr>");
        let ghost row_start = out@;
        let row = &rows[j];
        let nc = row.len();
        let mut c: usize = 0;
        proof {
            assert(rows.deep_view()[j as int] == rows@[j as int].deep_view());
        }
        while c < nc
            invariant
                c <= nc,
                nc == row@.len(),
                row == &rows@[j as int],
                out@ == row_start + spec_html_cells(rows@[j as int].deep_view(), c as int),
            decreases nc - c,
        {
            out.append("<td><pre>");
            out.append(row[c].as_str());
            out.append("</pre></td>");
            c = c + 1;
        }
        out.append("</tr>");
        j = j + 1;
    }
    out.append("</table>");
    out
}

} // verus!
