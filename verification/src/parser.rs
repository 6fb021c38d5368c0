use vstd::prelude::*;
use crate::date::{Date, date_token_wf, date_of_token, parse_date};
use crate::text::{
    is_prefix, has_prefix, str_eq_str, split_lines, split_ws, split_lines_spec, tokens_of,
    trim_spec, trim_str, views_of, lemma_views_push,
};
use crate::paths::{
    join_path, join_path_spec, parent_dir, parent_of_path, title_of, title_of_path, is_braw_path,
    path_is_braw,
};

verus! {

/// Why a source document was rejected.
#[derive(Clone, Copy, PartialEq, Eq, Structural, Debug)]
pub enum ParseError {
    /// The path does not name a blog source file.
    NotABlogSource,
    /// A metadata line carries no specifier after its marker.
    NoSpecifier,
    /// A metadata line names a specifier that is not known.
    UnknownSpecifier,
    /// A date directive has no argument.
    MissingDateArgument,
    /// A date directive's argument is not a valid `YYYY/MM/DD` date.
    MalformedDate,
    /// An author directive has no argument.
    MissingAuthorArgument,
}

/// The metadata of one document.
pub struct Meta {
    pub date: Date,
    pub author: String,
}

/// One parsed source document.
pub struct Blog {
    pub title: String,
    pub thumbnail: Option<String>,
    pub lines: Vec<String>,
    pub meta: Meta,
}

/// Whether a line is a metadata directive.
pub open spec fn is_meta_line(l: Seq<char>) -> bool {
    is_prefix("!meta:"@, l)
}

/// Whether a line is an image directive that sets the thumbnail.
pub open spec fn is_img_line(l: Seq<char>) -> bool {
    is_prefix("!img "@, l)
}

/// Whether a line is kept as content: not blank once trimmed.
pub open spec fn is_kept_line(l: Seq<char>) -> bool {
    trim_spec(l).len() != 0
}

/// The lines of `ls` that are not blank, in their order.
pub open spec fn keep_nonblank(ls: Seq<Seq<char>>) -> Seq<Seq<char>> {
    ls.filter(|l: Seq<char>| is_kept_line(l))
}

/// The non-blank lines of a raw source text, in their order.
pub open spec fn kept_lines(raw: Seq<char>) -> Seq<Seq<char>> {
    keep_nonblank(split_lines_spec(raw))
}

proof fn lemma_keep_push(ls: Seq<Seq<char>>, l: Seq<char>)
    ensures
        keep_nonblank(ls.push(l)) == if is_kept_line(l) {
            keep_nonblank(ls).push(l)
        } else {
            keep_nonblank(ls)
        },
{
    reveal(Seq::filter);
    assert(ls.push(l).drop_last() =~= ls);
}

/// What one metadata directive makes of the date and author gathered
/// so far: the specifier after the marker picks the field, its first
/// argument the value.
pub open spec fn apply_meta(l: Seq<char>, date: Date, author: Seq<char>) -> Result<
    (Date, Seq<char>),
    ParseError,
> {
    let toks = tokens_of(l.skip(6));
    if toks.len() == 0 {
        Err(ParseError::NoSpecifier)
    } else if toks[0] == "date"@ {
        if toks.len() < 2 {
            Err(ParseError::MissingDateArgument)
        } else if date_token_wf(toks[1]) {
            Ok((date_of_token(toks[1]), author))
        } else {
            Err(ParseError::MalformedDate)
        }
    } else if toks[0] == "author"@ {
        if toks.len() < 2 {
            Err(ParseError::MissingAuthorArgument)
        } else {
            Ok((date, toks[1]))
        }
    } else {
        Err(ParseError::UnknownSpecifier)
    }
}

/// The date and author that the metadata prefix of `ls` leaves, read
/// from the given defaults; or the first directive's error.
pub open spec fn fold_metas(ls: Seq<Seq<char>>, date: Date, author: Seq<char>) -> Result<
    (Date, Seq<char>),
    ParseError,
>
    decreases ls.len(),
{
    if ls.len() == 0 || !is_meta_line(ls[0]) {
        Ok((date, author))
    } else {
        match apply_meta(ls[0], date, author) {
            Ok(p) => fold_metas(ls.drop_first(), p.0, p.1),
            Err(e) => Err(e),
        }
    }
}

/// How many metadata directives stand at the head of `ls`.
pub open spec fn meta_prefix_len(ls: Seq<Seq<char>>) -> int
    decreases ls.len(),
{
    if ls.len() == 0 || !is_meta_line(ls[0]) {
        0
    } else {
        1 + meta_prefix_len(ls.drop_first())
    }
}

pub proof fn lemma_meta_prefix_bounds(ls: Seq<Seq<char>>)
    ensures
        0 <= meta_prefix_len(ls) <= ls.len(),
    decreases ls.len(),
{
    if ls.len() > 0 && is_meta_line(ls[0]) {
        lemma_meta_prefix_bounds(ls.drop_first());
    }
}

proof fn lemma_meta_prefix_at(ls: Seq<Seq<char>>, i: int)
    requires
        0 <= i <= ls.len(),
        forall|j: int| 0 <= j < i ==> is_meta_line(#[trigger] ls[j]),
        i < ls.len() ==> !is_meta_line(ls[i]),
    ensures
        meta_prefix_len(ls) == i,
    decreases i,
{
    if i > 0 {
        lemma_meta_prefix_at(ls.drop_first(), i - 1);
    }
}

/// Index of the first image directive among `ls`, or `-1`.
pub open spec fn first_img_index(ls: Seq<Seq<char>>) -> int
    decreases ls.len(),
{
    if ls.len() == 0 {
        -1
    } else if is_img_line(ls[0]) {
        0
    } else {
        let r = first_img_index(ls.drop_first());
        if r < 0 {
            -1
        } else {
            1 + r
        }
    }
}

proof fn lemma_first_img_at(ls: Seq<Seq<char>>, i: int)
    requires
        0 <= i < ls.len(),
        is_img_line(ls[i]),
        forall|j: int| 0 <= j < i ==> !is_img_line(#[trigger] ls[j]),
    ensures
        first_img_index(ls) == i,
    decreases i,
{
    if i > 0 {
        lemma_first_img_at(ls.drop_first(), i - 1);
    }
}

proof fn lemma_first_img_none(ls: Seq<Seq<char>>)
    requires
        forall|j: int| 0 <= j < ls.len() ==> !is_img_line(#[trigger] ls[j]),
    ensures
        first_img_index(ls) == -1,
    decreases ls.len(),
{
    if ls.len() > 0 {
        lemma_first_img_none(ls.drop_first());
    }
}

/// The thumbnail the body lines name: the first image directive's
/// argument, joined onto the source folder.
pub open spec fn thumb_of(body: Seq<Seq<char>>, folder: Seq<char>) -> Option<Seq<char>> {
    let i = first_img_index(body);
    if i < 0 {
        None
    } else {
        Some(join_path_spec(folder, body[i].skip(5)))
    }
}

/// The view of an optional owned string.
pub open spec fn opt_view(o: Option<String>) -> Option<Seq<char>> {
    match o {
        Some(s) => Some(s@),
        None => None,
    }
}

impl Blog {
    /// A well-formed document: its date is a real calendar day.
    pub open spec fn wf(self) -> bool {
        self.meta.date.wf()
    }
}

/// Turns the raw text of a blog source file into a document: the title
/// from the file name, a metadata prefix read into date and author over
/// the given defaults, the first image directive as the thumbnail, and
/// the non-blank content lines in their order.
pub fn braw_to_blog(raw: &str, path: &str, today: Date) -> (r: Result<Blog, ParseError>)
    requires
        today.wf(),
    ensures
        !path_is_braw(path@) ==> r == Err::<Blog, ParseError>(ParseError::NotABlogSource),
        path_is_braw(path@) ==> ({
            let kls = kept_lines(raw@);
            let body = kls.skip(meta_prefix_len(kls));
            match fold_metas(kls, today, "Unknown"@) {
                Ok(ma) => r matches Ok(b) && b.title@ == title_of_path(path@) && b.meta.date
                    == ma.0 && b.meta.author@ == ma.1 && views_of(b.lines@) == body && opt_view(
                    b.thumbnail,
                ) == thumb_of(body, parent_of_path(path@)) && b.wf(),
                Err(e) => r == Err::<Blog, ParseError>(e),
            }
        }),
{
    if !is_braw_path(path) {
        return Err(ParseError::NotABlogSource);
    }
    let all_lines = split_lines(raw);
    let mut kept: Vec<String> = Vec::new();
    let mut li: usize = 0;
    proof {
        assert(views_of(all_lines@).take(0) =~= Seq::<Seq<char>>::empty());
        assert(keep_nonblank(Seq::<Seq<char>>::empty()) =~= Seq::<Seq<char>>::empty()) by {
            reveal(Seq::filter);
        }
        assert(views_of(kept@) =~= Seq::<Seq<char>>::empty());
    }
    while li < all_lines.len()
        invariant
            li <= all_lines@.len(),
            views_of(all_lines@) == split_lines_spec(raw@),
            views_of(kept@) == keep_nonblank(views_of(all_lines@).take(li as int)),
        decreases all_lines@.len() - li,
    {
        let ghost prev = kept@;
        let line = &all_lines[li];
        let t = trim_str(line.as_str());
        if !t.is_empty() {
            kept.push(line.clone());
        }
        proof {
            let vs = views_of(all_lines@);
            assert(vs.take(li + 1) =~= vs.take(li as int).push(vs[li as int]));
            lemma_keep_push(vs.take(li as int), vs[li as int]);
            if is_kept_line(vs[li as int]) {
                lemma_views_push(prev, all_lines@[li as int]);
            }
        }
        li = li + 1;
    }
    proof {
        assert(views_of(all_lines@).take(all_lines@.len() as int) =~= views_of(all_lines@));
    }
    let ghost kls = kept_lines(raw@);
    assert(views_of(kept@) == kls);

    let mut date: Date = today;
    let mut author: String = "Unknown".to_owned();
    let mut i: usize = 0;
    proof {
        assert(kls.skip(0) =~= kls);
    }
    loop
        invariant
            i <= kept@.len(),
            views_of(kept@) == kls,
            kls == kept_lines(raw@),
            path_is_braw(path@),
            today.wf(),
            date.wf(),
            forall|j: int| 0 <= j < i ==> is_meta_line(#[trigger] kls[j]),
            fold_metas(kls, today, "Unknown"@) == fold_metas(kls.skip(i as int), date, author@),
        ensures
            i <= kept@.len(),
            date.wf(),
            forall|j: int| 0 <= j < i ==> is_meta_line(#[trigger] kls[j]),
            i < kept@.len() ==> !is_meta_line(kls[i as int]),
            fold_metas(kls, today, "Unknown"@) == Ok::<(Date, Seq<char>), ParseError>(
                (date, author@),
            ),
        decreases kept@.len() - i,
    {
        if i >= kept.len() {
            break ;
        }
        let line = &kept[i];
        if !has_prefix(line.as_str(), "!meta:") {
            break ;
        }
        let ghost lv = line@;
        assert(is_meta_line(kls[i as int]));
        let n = line.as_str().unicode_len();
        proof {
            reveal_strlit("!meta:");
            assert(lv.len() >= 6);
        }
        let rest = line.as_str().substring_char(6, n);
        proof {
            assert(lv.subrange(6, n as int) =~= lv.skip(6));
        }
        let toks = split_ws(rest);
        let step: Result<(Date, String), ParseError> = if toks.len() == 0 {
            Err(ParseError::NoSpecifier)
        } else if str_eq_str(toks[0].as_str(), "date") {
            if toks.len() < 2 {
                Err(ParseError::MissingDateArgument)
            } else {
                match parse_date(toks[1].as_str()) {
                    Some(d) => Ok((d, author)),
                    None => Err(ParseError::MalformedDate),
                }
            }
        } else if str_eq_str(toks[0].as_str(), "author") {
            if toks.len() < 2 {
                Err(ParseError::MissingAuthorArgument)
            } else {
                Ok((date, toks[1].clone()))
            }
        } else {
            Err(ParseError::UnknownSpecifier)
        };
        match step {
            Ok(p) => {
                proof {
                    assert(apply_meta(lv, date, author@) == Ok::<(Date, Seq<char>), ParseError>(
                        (p.0, p.1@),
                    ));
                    assert(kls.skip(i as int).drop_first() =~= kls.skip(i + 1));
                    assert(kls.skip(i as int)[0] == kls[i as int]);
                }
                date = p.0;
                author = p.1;
            },
            Err(e) => {
                proof {
                    assert(apply_meta(lv, date, author@) == Err::<(Date, Seq<char>), ParseError>(
                        e,
                    ));
                    assert(kls.skip(i as int)[0] == kls[i as int]);
                }
                return Err(e);
            },
        }
        i = i + 1;
    }
    proof {
        lemma_meta_prefix_at(kls, i as int);
        assert(meta_prefix_len(kls) == i as int);
    }

    let mut body: Vec<String> = Vec::new();
    let mut j: usize = i;
    proof {
        assert(views_of(body@) =~= Seq::<Seq<char>>::empty());
        assert(kls.skip(i as int).take(0) =~= Seq::<Seq<char>>::empty());
    }
    while j < kept.len()
        invariant
            i <= j <= kept@.len(),
            views_of(kept@) == kls,
            views_of(body@) == kls.skip(i as int).take(j - i),
        decreases kept@.len() - j,
    {
        let ghost prev = body@;
        body.push(kept[j].clone());
        proof {
            lemma_views_push(prev, kept@[j as int]);
            assert(kls.skip(i as int).take(j + 1 - i) =~= kls.skip(i as int).take(j - i).push(
                kls[j as int],
            ));
        }
        j = j + 1;
    }
    proof {
        assert(kls.skip(i as int).take(kept@.len() - i) =~= kls.skip(i as int));
    }
    let ghost bodyv = kls.skip(i as int);

    let folder = parent_dir(path);
    let mut thumbnail: Option<String> = None;
    let mut k: usize = 0;
    let mut found: bool = false;
    while k < body.len() && !found
        invariant
            k <= body@.len(),
            views_of(body@) == bodyv,
            !found ==> thumbnail is None && forall|j2: int|
                0 <= j2 < k ==> !is_img_line(#[trigger] bodyv[j2]),
            found ==> k >= 1 && is_img_line(bodyv[k - 1]) && (forall|j2: int|
                0 <= j2 < k - 1 ==> !is_img_line(#[trigger] bodyv[j2])) && opt_view(thumbnail)
                == Some(join_path_spec(folder@, bodyv[k - 1].skip(5))),
            folder@ == parent_of_path(path@),
        decreases body@.len() - k,
    {
        let line = &body[k];
        if has_prefix(line.as_str(), "!img ") {
            let n = line.as_str().unicode_len();
            proof {
                reveal_strlit("!img ");
                assert(line@.len() >= 5);
            }
            let rel = line.as_str().substring_char(5, n);
            proof {
                assert(line@.subrange(5, n as int) =~= line@.skip(5));
            }
            thumbnail = Some(join_path(folder.as_str(), rel));
            found = true;
        }
        k = k + 1;
    }
    proof {
        if found {
            lemma_first_img_at(bodyv, k - 1);
        } else {
            lemma_first_img_none(bodyv);
        }
    }

    let title = title_of(path);
    Ok(
        Blog {
            title,
            thumbnail,
            lines: body,
            meta: Meta { date, author },
        },
    )
}

/// With no metadata directive among a source's kept lines, the
/// document keeps the injected date and the sentinel author, and no
/// line is consumed.
pub proof fn lemma_defaults_without_meta(raw: Seq<char>, today: Date)
    requires
        forall|i: int|
            0 <= i < kept_lines(raw).len() ==> !is_meta_line(#[trigger] kept_lines(raw)[i]),
    ensures
        fold_metas(kept_lines(raw), today, "Unknown"@) == Ok::<(Date, Seq<char>), ParseError>(
            (today, "Unknown"@),
        ),
        meta_prefix_len(kept_lines(raw)) == 0,
{
}

/// Metadata directives are only recognized as a prefix: after any
/// non-directive line, a later directive-shaped line is never consumed
/// as metadata, and stands among the content lines of the document.
pub proof fn lemma_meta_only_prefix(ls: Seq<Seq<char>>, i: int, j: int)
    requires
        0 <= i < j < ls.len(),
        !is_meta_line(ls[i]),
    ensures
        meta_prefix_len(ls) <= i,
        ls.skip(meta_prefix_len(ls))[j - meta_prefix_len(ls)] == ls[j],
    decreases i,
{
    lemma_meta_prefix_bounds(ls);
    if meta_prefix_len(ls) > 0 && i > 0 {
        lemma_meta_only_prefix(ls.drop_first(), i - 1, j - 1);
    }
}

} // verus!
