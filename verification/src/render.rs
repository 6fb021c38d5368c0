use vstd::prelude::*;
use crate::date::{Date, locale_repr, format_date_locale};
use crate::parser::{Blog, opt_view};
use crate::paths::{join_path, join_path_spec, diff_path_of, diff_paths_str};
use crate::text::{
    find_char, find_char_spec, join_lines, join_nl, push_char, replace_first, replace_first_spec,
    str_eq_str, trim_spec, trim_str, views_of, lemma_views_push,
};

verus! {

/// Why one content line could not be translated.
#[derive(Clone, Copy, PartialEq, Eq, Structural, Debug)]
pub enum LineError {
    /// The line names a directive that is not known.
    UnknownDirective,
    /// The line is a directive with no space-separated argument.
    MissingArgument,
    /// The image's path cannot be made relative to the output directory.
    UnresolvablePath,
}

/// Why a page could not be rendered: the first offending content line
/// and what was wrong with it.
#[derive(Clone, Copy, PartialEq, Eq, Structural, Debug)]
pub struct RenderError {
    pub line: usize,
    pub kind: LineError,
}

/// Why an index entry could not be rendered.
#[derive(Clone, Copy, PartialEq, Eq, Structural, Debug)]
pub enum IndexError {
    /// The thumbnail's path cannot be made relative to the base directory.
    ThumbnailUnresolvable,
    /// The page's path cannot be made relative to the base directory.
    PageUnresolvable,
}

/// The image element a resolved source path yields.
pub open spec fn img_line_repr(src: Seq<char>) -> Seq<char> {
    "<img class=\"image\" src=\""@ + src + "\">"@
}

/// The heading element wrapping `t`.
pub open spec fn heading_repr(t: Seq<char>) -> Seq<char> {
    "<h2 class=\"heading\">"@ + t + "</h2>"@
}

/// The sub-heading element wrapping `t`.
pub open spec fn subheading_repr(t: Seq<char>) -> Seq<char> {
    "<h3 class=\"subheading\">"@ + t + "</h3>"@
}

/// The paragraph element wrapping `t`.
pub open spec fn para_repr(t: Seq<char>) -> Seq<char> {
    "<p>"@ + t + "</p>"@
}

/// What one content line renders to: the line is trimmed, a leading
/// `!` makes it a directive whose only known word is `img`, one or two
/// leading `#` make a heading or sub-heading, and anything else is a
/// paragraph kept verbatim.
pub open spec fn render_line_spec(raw: Seq<char>, folder: Seq<char>, base: Seq<char>) -> Result<
    Seq<char>,
    LineError,
> {
    let t = trim_spec(raw);
    if t.len() > 0 && t[0] == '!' {
        let rest = t.skip(1);
        let si = find_char_spec(rest, ' ');
        if si < 0 {
            Err(LineError::MissingArgument)
        } else {
            let word = rest.take(si);
            let arg = rest.skip(si + 1);
            if word == "img"@ {
                match diff_path_of(join_path_spec(folder, arg), base) {
                    Some(rel) => Ok(img_line_repr(rel)),
                    None => Err(LineError::UnresolvablePath),
                }
            } else {
                Err(LineError::UnknownDirective)
            }
        }
    } else if t.len() >= 2 && t[0] == '#' && t[1] == '#' {
        Ok(subheading_repr(trim_spec(t.skip(2))))
    } else if t.len() >= 1 && t[0] == '#' {
        Ok(heading_repr(trim_spec(t.skip(1))))
    } else {
        Ok(para_repr(t))
    }
}

/// Translates one line of blog markup to HTML, with image paths
/// rewritten relative to the output directory `base_path`.
pub fn parse_a_line(raw: &str, base_path: &str, blog_folder: &str) -> (r: Result<
    String,
    LineError,
>)
    ensures
        match r {
            Ok(s) => render_line_spec(raw@, blog_folder@, base_path@) == Ok::<Seq<char>, LineError>(
                s@,
            ),
            Err(e) => render_line_spec(raw@, blog_folder@, base_path@) == Err::<
                Seq<char>,
                LineError,
            >(e),
        },
{
    let t = trim_str(raw);
    let n = t.unicode_len();
    if n > 0 && t.get_char(0) == '!' {
        let rest = t.substring_char(1, n);
        proof {
            assert(t@.subrange(1, n as int) =~= t@.skip(1));
        }
        let m = rest.unicode_len();
        match find_char(rest, ' ') {
            None => Err(LineError::MissingArgument),
            Some(si) => {
                let word = rest.substring_char(0, si);
                let arg = rest.substring_char(si + 1, m);
                proof {
                    assert(rest@.subrange(0, si as int) =~= rest@.take(si as int));
                    assert(rest@.subrange(si + 1, m as int) =~= rest@.skip(si + 1));
                }
                if str_eq_str(word, "img") {
                    let joined = join_path(blog_folder, arg);
                    match diff_paths_str(joined.as_str(), base_path) {
                        Some(rel) => {
                            let mut acc = String::new();
                            acc.append("<img class=\"image\" src=\"");
                            acc.append(rel.as_str());
                            acc.append("\">");
                            proof {
                                assert(acc@ =~= img_line_repr(rel@));
                            }
                            Ok(acc)
                        },
                        None => Err(LineError::UnresolvablePath),
                    }
                } else {
                    Err(LineError::UnknownDirective)
                }
            },
        }
    } else if n >= 2 && t.get_char(0) == '#' && t.get_char(1) == '#' {
        let inner = trim_str(t.substring_char(2, n));
        proof {
            assert(t@.subrange(2, n as int) =~= t@.skip(2));
        }
        let mut acc = String::new();
        acc.append("<h3 class=\"subheading\">");
        acc.append(inner);
        acc.append("</h3>");
        proof {
            assert(acc@ =~= subheading_repr(trim_spec(t@.skip(2))));
        }
        Ok(acc)
    } else if n >= 1 && t.get_char(0) == '#' {
        let inner = trim_str(t.substring_char(1, n));
        proof {
            assert(t@.subrange(1, n as int) =~= t@.skip(1));
        }
        let mut acc = String::new();
        acc.append("<h2 class=\"heading\">");
        acc.append(inner);
        acc.append("</h2>");
        proof {
            assert(acc@ =~= heading_repr(trim_spec(t@.skip(1))));
        }
        Ok(acc)
    } else {
        let mut acc = String::new();
        acc.append("<p>");
        acc.append(t);
        acc.append("</p>");
        proof {
            assert(acc@ =~= para_repr(t@));
        }
        Ok(acc)
    }
}

/// What each of the lines renders to.
pub open spec fn line_results(ls: Seq<Seq<char>>, folder: Seq<char>, base: Seq<char>) -> Seq<
    Result<Seq<char>, LineError>,
> {
    ls.map_values(|l: Seq<char>| render_line_spec(l, folder, base))
}

/// Index of the first failed line, or `-1` when every line rendered.
pub open spec fn first_err_index(rs: Seq<Result<Seq<char>, LineError>>) -> int
    decreases rs.len(),
{
    if rs.len() == 0 {
        -1
    } else if rs[0] is Err {
        0
    } else {
        let r = first_err_index(rs.drop_first());
        if r < 0 {
            -1
        } else {
            1 + r
        }
    }
}

proof fn lemma_first_err_at(rs: Seq<Result<Seq<char>, LineError>>, i: int)
    requires
        0 <= i < rs.len(),
        rs[i] is Err,
        forall|j: int| 0 <= j < i ==> #[trigger] rs[j] is Ok,
    ensures
        first_err_index(rs) == i,
    decreases i,
{
    if i > 0 {
        lemma_first_err_at(rs.drop_first(), i - 1);
    }
}

proof fn lemma_first_err_none(rs: Seq<Result<Seq<char>, LineError>>)
    requires
        forall|j: int| 0 <= j < rs.len() ==> #[trigger] rs[j] is Ok,
    ensures
        first_err_index(rs) == -1,
    decreases rs.len(),
{
    if rs.len() > 0 {
        lemma_first_err_none(rs.drop_first());
    }
}

/// The rendered text of each successful line.
pub open spec fn oks_of(rs: Seq<Result<Seq<char>, LineError>>) -> Seq<Seq<char>> {
    rs.map_values(
        |x: Result<Seq<char>, LineError>|
            match x {
                Ok(s) => s,
                Err(_) => Seq::empty(),
            },
    )
}

/// The one placeholder that page and index templates carry.
pub open spec fn page_marker() -> Seq<char> {
    "<!-- Insert Content Here -->"@
}

impl Blog {
    /// Renders the full page: every content line translated, joined
    /// with newlines, and substituted into the template at its
    /// placeholder; or the first offending line's error.
    pub fn to_html(&self, base_path: &str, blog_folder: &str, template: &str) -> (r: Result<
        String,
        RenderError,
    >)
        ensures
            ({
                let rs = line_results(views_of(self.lines@), blog_folder@, base_path@);
                match r {
                    Ok(h) => first_err_index(rs) < 0 && h@ == replace_first_spec(
                        template@,
                        page_marker(),
                        join_nl(oks_of(rs)),
                    ),
                    Err(e) => first_err_index(rs) == e.line && rs[e.line as int] == Err::<
                        Seq<char>,
                        LineError,
                    >(e.kind),
                }
            }),
    {
        let ghost rs = line_results(views_of(self.lines@), blog_folder@, base_path@);
        let mut outs: Vec<String> = Vec::new();
        let mut i: usize = 0;
        proof {
            assert(views_of(outs@) =~= oks_of(rs.take(0)));
        }
        while i < self.lines.len()
            invariant
                i <= self.lines@.len(),
                rs == line_results(views_of(self.lines@), blog_folder@, base_path@),
                rs.len() == self.lines@.len(),
                forall|j: int| 0 <= j < i ==> #[trigger] rs[j] is Ok,
                views_of(outs@) == oks_of(rs.take(i as int)),
            decreases self.lines@.len() - i,
        {
            let ghost prev = outs@;
            match parse_a_line(self.lines[i].as_str(), base_path, blog_folder) {
                Ok(s) => {
                    proof {
                        assert(rs[i as int] == render_line_spec(
                            self.lines@[i as int]@,
                            blog_folder@,
                            base_path@,
                        ));
                    }
                    outs.push(s);
                    proof {
                        lemma_views_push(prev, outs@.last());
                        assert(oks_of(rs.take(i + 1)) =~= oks_of(rs.take(i as int)).push(
                            rs[i as int]->Ok_0,
                        ));
                    }
                },
                Err(e) => {
                    proof {
                        assert(rs[i as int] == render_line_spec(
                            self.lines@[i as int]@,
                            blog_folder@,
                            base_path@,
                        ));
                        lemma_first_err_at(rs, i as int);
                    }
                    return Err(RenderError { line: i, kind: e });
                },
            }
            i = i + 1;
        }
        proof {
            lemma_first_err_none(rs);
            assert(rs.take(rs.len() as int) =~= rs);
        }
        let content = join_lines(&outs);
        let page = replace_first(template, "<!-- Insert Content Here -->", content.as_str());
        Ok(page)
    }

    /// The short body summary shown in the index: directive lines
    /// dropped, heading marks removed, lines trimmed and joined, the
    /// whole cut after `length` characters with a visible ellipsis
    /// when something was cut.
    pub fn generate_overview(&self, length: usize) -> (r: String)
        ensures
            r@ == overview_spec(views_of(self.lines@), length as int),
    {
        let ghost lsv = views_of(self.lines@);
        let mut cleaned: Vec<String> = Vec::new();
        let mut i: usize = 0;
        proof {
            assert(lsv.take(0) =~= Seq::<Seq<char>>::empty());
            assert(clean_lines(Seq::<Seq<char>>::empty()) =~= Seq::<Seq<char>>::empty()) by {
                reveal(Seq::filter);
            }
            assert(views_of(cleaned@) =~= Seq::<Seq<char>>::empty());
        }
        while i < self.lines.len()
            invariant
                i <= self.lines@.len(),
                lsv == views_of(self.lines@),
                views_of(cleaned@) == clean_lines(lsv.take(i as int)),
            decreases self.lines@.len() - i,
        {
            let ghost prev = cleaned@;
            let line = self.lines[i].as_str();
            let n = line.unicode_len();
            let directive = n > 0 && line.get_char(0) == '!';
            if !directive {
                let mut acc = String::new();
                let mut j: usize = 0;
                proof {
                    assert(line@.take(0) =~= Seq::<char>::empty());
                    assert(strip_hash(Seq::<char>::empty()) =~= Seq::<char>::empty()) by {
                        reveal(Seq::filter);
                    }
                }
                while j < n
                    invariant
                        j <= n,
                        n == line@.len(),
                        acc@ == strip_hash(line@.take(j as int)),
                    decreases n - j,
                {
                    let c = line.get_char(j);
                    if c != '#' {
                        push_char(&mut acc, c);
                    }
                    proof {
                        assert(line@.take(j + 1) =~= line@.take(j as int).push(line@[j as int]));
                        lemma_strip_push(line@.take(j as int), line@[j as int]);
                    }
                    j = j + 1;
                }
                proof {
                    assert(line@.take(n as int) =~= line@);
                }
                let trimmed = trim_str(acc.as_str()).to_owned();
                cleaned.push(trimmed);
                proof {
                    lemma_views_push(prev, cleaned@.last());
                }
            }
            proof {
                assert(lsv.take(i + 1) =~= lsv.take(i as int).push(lsv[i as int]));
                lemma_clean_push(lsv.take(i as int), lsv[i as int]);
            }
            i = i + 1;
        }
        proof {
            assert(lsv.take(lsv.len() as int) =~= lsv);
        }
        let src = join_lines(&cleaned);
        let sl = src.as_str().unicode_len();
        if sl <= length {
            src
        } else {
            let mut out = src.as_str().substring_char(0, length).to_owned();
            proof {
                assert(src@.subrange(0, length as int) =~= src@.take(length as int));
            }
            push_char(&mut out, '\u{2025}');
            push_char(&mut out, '\u{2025}');
            proof {
                assert(out@ =~= src@.take(length as int) + ellipsis());
            }
            out
        }
    }

    /// Renders the self-contained index entry for this document: its
    /// thumbnail (or the placeholder image), a link to the page, the
    /// formatted date and the body overview.
    pub fn get_index(&self, base_path: &str, blog_path: &str) -> (r: Result<String, IndexError>)
        requires
            self.wf(),
        ensures
            match r {
                Ok(s) => thumb_src_of(opt_view(self.thumbnail), base_path@) matches Some(ts)
                    && diff_path_of(blog_path@, base_path@) matches Some(rel) && s@ == index_repr(
                    self.title@,
                    ts,
                    rel,
                    self.meta.date,
                    overview_spec(views_of(self.lines@), 100),
                ),
                Err(e) => (e == IndexError::ThumbnailUnresolvable && thumb_src_of(
                    opt_view(self.thumbnail),
                    base_path@,
                ) is None) || (e == IndexError::PageUnresolvable && thumb_src_of(
                    opt_view(self.thumbnail),
                    base_path@,
                ) is Some && diff_path_of(blog_path@, base_path@) is None),
            },
    {
        let thumb_src: String = match &self.thumbnail {
            Some(t) => match diff_paths_str(t.as_str(), base_path) {
                Some(s) => s,
                None => {
                    return Err(IndexError::ThumbnailUnresolvable);
                },
            },
            None => "../assets/no_image.png".to_owned(),
        };
        let rel = match diff_paths_str(blog_path, base_path) {
            Some(s) => s,
            None => {
                return Err(IndexError::PageUnresolvable);
            },
        };
        let datestr = format_date_locale(&self.meta.date);
        let ov = self.generate_overview(100);
        let mut acc = String::new();
        acc.append("<div class=\"blog_container\">\n");
        acc.append("<img class=\"blog_thumbnail\" src=\"");
        acc.append(thumb_src.as_str());
        acc.append("\">\n");
        acc.append("<div>\n");
        acc.append("<a class=\"blog_title\" href=\"");
        acc.append(rel.as_str());
        acc.append("\">");
        acc.append(self.title.as_str());
        acc.append("</a>\n");
        acc.append("<p class=\"date\">");
        acc.append(datestr.as_str());
        acc.append("</p>\n");
        acc.append("<p>");
        acc.append(ov.as_str());
        acc.append("</p>\n");
        acc.append("</div>\n</div>");
        proof {
            assert(acc@ =~= index_repr(
                self.title@,
                thumb_src@,
                rel@,
                self.meta.date,
                overview_spec(views_of(self.lines@), 100),
            ));
        }
        Ok(acc)
    }
}

/// Whether a line is a directive of any kind, left out of the overview.
pub open spec fn is_directive_line(l: Seq<char>) -> bool {
    l.len() > 0 && l[0] == '!'
}

/// `l` with every heading mark removed.
pub open spec fn strip_hash(l: Seq<char>) -> Seq<char> {
    l.filter(|c: char| c != '#')
}

/// The overview's source lines: directive lines dropped, each other
/// line with heading marks removed and trimmed.
pub open spec fn clean_lines(ls: Seq<Seq<char>>) -> Seq<Seq<char>> {
    ls.filter(|l: Seq<char>| !is_directive_line(l)).map_values(
        |l: Seq<char>| trim_spec(strip_hash(l)),
    )
}

/// The visible truncation mark appended to a cut overview.
pub open spec fn ellipsis() -> Seq<char> {
    seq!['\u{2025}', '\u{2025}']
}

/// The overview of the body lines: its source text whole when it has
/// at most `n` characters, else its first `n` characters and the
/// truncation mark.
pub open spec fn overview_spec(ls: Seq<Seq<char>>, n: int) -> Seq<char> {
    let src = join_nl(clean_lines(ls));
    if src.len() <= n {
        src
    } else {
        src.take(n) + ellipsis()
    }
}

/// An overview source no longer than the cut length is kept whole,
/// with nothing appended; a longer one is cut to exactly its first
/// `n` characters, with the truncation mark appended after them.
pub proof fn lemma_overview_truncation(ls: Seq<Seq<char>>, n: int)
    requires
        n >= 0,
    ensures
        join_nl(clean_lines(ls)).len() <= n ==> overview_spec(ls, n) == join_nl(clean_lines(ls)),
        join_nl(clean_lines(ls)).len() > n ==> overview_spec(ls, n) == join_nl(
            clean_lines(ls),
        ).take(n) + ellipsis(),
        join_nl(clean_lines(ls)).len() > n ==> overview_spec(ls, n).take(n) == join_nl(
            clean_lines(ls),
        ).take(n),
{
    if join_nl(clean_lines(ls)).len() > n {
        assert((join_nl(clean_lines(ls)).take(n) + ellipsis()).take(n) =~= join_nl(
            clean_lines(ls),
        ).take(n));
    }
}

proof fn lemma_strip_push(s: Seq<char>, c: char)
    ensures
        strip_hash(s.push(c)) == if c != '#' {
            strip_hash(s).push(c)
        } else {
            strip_hash(s)
        },
{
    reveal(Seq::filter);
    assert(s.push(c).drop_last() =~= s);
}

proof fn lemma_clean_push(ls: Seq<Seq<char>>, l: Seq<char>)
    ensures
        clean_lines(ls.push(l)) == if is_directive_line(l) {
            clean_lines(ls)
        } else {
            clean_lines(ls).push(trim_spec(strip_hash(l)))
        },
{
    reveal(Seq::filter);
    assert(ls.push(l).drop_last() =~= ls);
    let p = |l2: Seq<char>| !is_directive_line(l2);
    let f = |l2: Seq<char>| trim_spec(strip_hash(l2));
    if is_directive_line(l) {
        assert(ls.push(l).filter(p) == ls.filter(p));
    } else {
        assert(ls.push(l).filter(p) == ls.filter(p).push(l));
        assert(ls.filter(p).push(l).map_values(f) =~= ls.filter(p).map_values(f).push(f(l)));
    }
}

/// The source the thumbnail image element uses: the thumbnail's path
/// made relative to the base directory, or the placeholder image where
/// the document has none.
pub open spec fn thumb_src_of(thumb: Option<Seq<char>>, base: Seq<char>) -> Option<Seq<char>> {
    match thumb {
        Some(t) => diff_path_of(t, base),
        None => Some("../assets/no_image.png"@),
    }
}

/// The index entry of a document, from its rendered parts.
pub open spec fn index_repr(
    title: Seq<char>,
    thumb_src: Seq<char>,
    rel: Seq<char>,
    d: Date,
    ov: Seq<char>,
) -> Seq<char> {
    "<div class=\"blog_container\">\n"@ + "<img class=\"blog_thumbnail\" src=\""@ + thumb_src
        + "\">\n"@ + "<div>\n"@ + "<a class=\"blog_title\" href=\""@ + rel + "\">"@ + title
        + "</a>\n"@ + "<p class=\"date\">"@ + locale_repr(d) + "</p>\n"@ + "<p>"@ + ov + "</p>\n"@
        + "</div>\n</div>"@
}

} // verus!
