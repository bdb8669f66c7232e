//! Items extracted from generated documentation: their kinds, source spans,
//! the attribute-aware start-line search, and the pass that drops functions
//! sitting inside `impl` blocks.

use vstd::prelude::*;
use vstd::string::StringExecFns;
use crate::chunks::rust::{extract_lines, join_range};
use crate::error::BackendError;
use crate::strutil::{
    contains_chars,
    contains_sub,
    skip_spaces,
    spec_starts_with,
    starts_with,
    streq,
    to_chars,
    trim_spaces,
    trim_spaces_exec,
};

verus! {

/// Kind of a documented item.
#[derive(Debug, Clone, Copy, PartialEq, Eq, Structural)]
pub enum ItemType {
    Struct,
    Enum,
    Function,
    Constant,
    Impl,
}

/// A source span: start and end as (1-based row, column) pairs.
pub struct FileRange {
    pub start: (u32, u32),
    pub end: (u32, u32),
}

impl Clone for FileRange {
    fn clone(&self) -> (res: Self)
        ensures
            res == *self,
    {
        FileRange { start: (self.start.0, self.start.1), end: (self.end.0, self.end.1) }
    }
}

/// Whether `inner` lies completely within `outer`, comparing (row, column)
/// pairs lexicographically at both ends.
pub open spec fn spec_span_within(outer: &FileRange, inner: &FileRange) -> bool {
    &&& (outer.start.0 < inner.start.0 || (outer.start.0 == inner.start.0
        && outer.start.1 <= inner.start.1))
    &&& (outer.end.0 > inner.end.0 || (outer.end.0 == inner.end.0 && outer.end.1 >= inner.end.1))
}

/// Checks if the inner span is completely within the outer span.
pub fn is_span_within(outer: &FileRange, inner: &FileRange) -> (r: bool)
    ensures
        r == spec_span_within(outer, inner),
{
    (outer.start.0 < inner.start.0
        || (outer.start.0 == inner.start.0 && outer.start.1 <= inner.start.1))
        && (outer.end.0 > inner.end.0
            || (outer.end.0 == inner.end.0 && outer.end.1 >= inner.end.1))
}

/// The span record of a documented item.
pub struct Span {
    pub filename: String,
    pub begin: (u32, u32),
    pub end: (u32, u32),
}

/// A documented item as the documentation index describes it: its crate,
/// name, doc text, span, and the kind tag of its inner record.
pub struct Item {
    pub crate_id: u32,
    pub name: Option<String>,
    pub docs: Option<String>,
    pub span: Option<Span>,
    pub inner_kind: Option<String>,
}

impl Item {
    /// The kind tag of the item's inner record.
    pub fn item_type(&self) -> (r: Option<&str>)
        ensures
            (r is Some) == (self.inner_kind is Some),
            r matches Some(t) ==> t@ == self.inner_kind->0@,
    {
        match &self.inner_kind {
            Some(s) => Some(s.as_str()),
            None => None,
        }
    }
}

/// The lines of a source file handed in beside the documentation index.
pub struct SourceFile {
    pub filename: String,
    pub lines: Vec<String>,
}

/// A documented item with its source code attached.
pub struct DocItem {
    pub name: Option<String>,
    pub doc_string: Option<String>,
    pub kind: ItemType,
    pub source_code: String,
    pub filename: String,
    pub span: FileRange,
}

impl Clone for DocItem {
    fn clone(&self) -> (res: Self)
        ensures
            res == *self,
    {
        DocItem {
            name: match &self.name {
                Some(s) => Some(s.clone()),
                None => None,
            },
            doc_string: match &self.doc_string {
                Some(s) => Some(s.clone()),
                None => None,
            },
            kind: self.kind,
            source_code: self.source_code.clone(),
            filename: self.filename.clone(),
            span: self.span.clone(),
        }
    }
}

/// The text a doc item renders to: its doc string, a blank line, and its
/// source code fenced as Rust.
pub open spec fn spec_doc_text(d: DocItem) -> Seq<char> {
    match d.doc_string {
        Some(ds) => ds@ + "\n\n"@ + "```rust\n"@ + d.source_code@ + "\n```"@,
        None => "```rust\n"@ + d.source_code@ + "\n```"@,
    }
}

impl DocItem {
    /// Renders the item as doc text followed by a fenced code block.
    pub fn to_text(&self) -> (r: String)
        ensures
            r@ == spec_doc_text(*self),
    {
        let mut t = String::new();
        match &self.doc_string {
            Some(ds) => {
                t.append(ds.as_str());
                t.append("\n\n");
            },
            None => {},
        }
        t.append("```rust\n");
        t.append(self.source_code.as_str());
        t.append("\n```");
        assert(t@ =~= spec_doc_text(*self));
        t
    }
}

/// A line that is blank or begins an attribute, after leading whitespace.
pub open spec fn attr_or_blank(s: Seq<char>) -> bool {
    skip_spaces(s).len() == 0 || spec_starts_with(skip_spaces(s), "#["@)
}

/// Removes leading ASCII whitespace.
fn skip_spaces_vec(v: &Vec<char>) -> (r: Vec<char>)
    ensures
        r@ == skip_spaces(v@),
{
    let mut i: usize = 0;
    assert(v@.skip(0) =~= v@);
    while i < v.len() && (v[i] == ' ' || v[i] == '\t' || v[i] == '\r' || v[i] == '\n')
        invariant
            i <= v@.len(),
            skip_spaces(v@) == skip_spaces(v@.skip(i as int)),
        decreases v@.len() - i,
    {
        assert(v@.skip(i as int)[0] == v@[i as int]);
        assert(v@.skip(i as int).drop_first() =~= v@.skip(i + 1));
        i = i + 1;
    }
    assert(skip_spaces(v@.skip(i as int)) =~= v@.skip(i as int));
    let mut r: Vec<char> = Vec::new();
    for k in i..v.len()
        invariant
            i <= v@.len(),
            r@ == v@.subrange(i as int, k as int),
    {
        r.push(v[k]);
        assert(r@ =~= v@.subrange(i as int, k + 1));
    }
    assert(v@.subrange(i as int, v@.len() as int) =~= v@.skip(i as int));
    r
}

fn line_attr_or_blank(line: &String) -> (r: bool)
    ensures
        r == attr_or_blank(line@),
{
    let tc = to_chars(line.as_str());
    let t = skip_spaces_vec(&tc);
    if t.len() == 0 {
        true
    } else {
        let p = to_chars("#[");
        starts_with(&t, &p)
    }
}

/// The first line of the block of attribute or blank lines that ends just
/// above `cur`; `cur` itself when there is none.
pub open spec fn spec_start_with_attributes(lines: Seq<Seq<char>>, cur: int) -> int
    decreases cur,
{
    if 0 < cur <= lines.len() && attr_or_blank(lines[cur - 1]) {
        spec_start_with_attributes(lines, cur - 1)
    } else {
        cur
    }
}

/// Finds the start line that includes any preceding attribute and blank
/// lines for an item; returns the adjusted 0-based start line index.
pub fn find_start_line_with_attributes(lines: &Vec<String>, item_start_line: usize) -> (r: usize)
    ensures
        r as int == spec_start_with_attributes(lines.deep_view(), item_start_line as int),
        r <= item_start_line,
    decreases item_start_line,
{
    if item_start_line > 0 && item_start_line <= lines.len() {
        assert(lines.deep_view()[item_start_line - 1] == lines@[item_start_line - 1]@);
        if line_attr_or_blank(&lines[item_start_line - 1]) {
            return find_start_line_with_attributes(lines, item_start_line - 1);
        }
    }
    item_start_line
}

/// Some item of `all` is an `impl` in the same file whose span contains the
/// span of `d`.
pub open spec fn inside_some_impl(d: DocItem, all: Seq<DocItem>) -> bool {
    exists|j: int|
        0 <= j < all.len() && (#[trigger] all[j]).kind == ItemType::Impl && all[j].filename@
            == d.filename@ && spec_span_within(&all[j].span, &d.span)
}

/// An item survives the impl-member pass unless it is a function inside
/// some `impl` block of the same file.
pub open spec fn keeps_item(d: DocItem, all: Seq<DocItem>) -> bool {
    d.kind != ItemType::Function || !inside_some_impl(d, all)
}

/// The items of `all.take(i)` that survive the impl-member pass.
pub open spec fn filtered_prefix(all: Seq<DocItem>, i: int) -> Seq<DocItem>
    decreases i,
{
    if i <= 0 || i > all.len() {
        Seq::empty()
    } else {
        filtered_prefix(all, i - 1) + (if keeps_item(all[i - 1], all) {
            seq![all[i - 1]]
        } else {
            Seq::empty()
        })
    }
}

fn function_inside_impl(d: &DocItem, all: &Vec<DocItem>) -> (r: bool)
    ensures
        r == inside_some_impl(*d, all@),
{
    for j in 0..all.len()
        invariant
            forall|k: int|
                0 <= k < j ==> !((#[trigger] all@[k]).kind == ItemType::Impl && all@[k].filename@
                    == d.filename@ && spec_span_within(&all@[k].span, &d.span)),
    {
        if matches!(all[j].kind, ItemType::Impl) && streq(
            all[j].filename.as_str(),
            d.filename.as_str(),
        ) && is_span_within(&all[j].span, &d.span) {
            return true;
        }
    }
    assert(!inside_some_impl(*d, all@)) by {
        if inside_some_impl(*d, all@) {
            let j = choose|j: int|
                0 <= j < all@.len() && (#[trigger] all@[j]).kind == ItemType::Impl
                    && all@[j].filename@ == d.filename@ && spec_span_within(&all@[j].span, &d.span);
        }
    }
    false
}

/// Filters out functions that sit within impl blocks by comparing spans.
pub fn filter_impl_functions(doc_items: Vec<DocItem>) -> (out: Vec<DocItem>)
    ensures
        out@ == filtered_prefix(doc_items@, doc_items@.len() as int),
{
    let mut out: Vec<DocItem> = Vec::new();
    for i in 0..doc_items.len()
        invariant
            out@ == filtered_prefix(doc_items@, i as int),
    {
        let d = &doc_items[i];
        let keep = if matches!(d.kind, ItemType::Function) {
            !function_inside_impl(d, &doc_items)
        } else {
            true
        };
        if keep {
            let ghost prev = out@;
            out.push(d.clone());
            assert(out@ =~= prev + seq![doc_items@[i as int]]);
        } else {
            assert(out@ =~= out@ + Seq::<DocItem>::empty());
        }
    }
    out
}

/// The kind of a documented item's kind tag, for the kinds that get source
/// attached.
pub open spec fn spec_item_kind(s: Seq<char>) -> Option<ItemType> {
    if s == "struct"@ {
        Some(ItemType::Struct)
    } else if s == "enum"@ {
        Some(ItemType::Enum)
    } else if s == "function"@ {
        Some(ItemType::Function)
    } else if s == "constant"@ {
        Some(ItemType::Constant)
    } else if s == "impl"@ {
        Some(ItemType::Impl)
    } else {
        None
    }
}

fn item_kind_of(s: &String) -> (k: Option<ItemType>)
    ensures
        k == spec_item_kind(s@),
{
    if streq(s.as_str(), "struct") {
        Some(ItemType::Struct)
    } else if streq(s.as_str(), "enum") {
        Some(ItemType::Enum)
    } else if streq(s.as_str(), "function") {
        Some(ItemType::Function)
    } else if streq(s.as_str(), "constant") {
        Some(ItemType::Constant)
    } else if streq(s.as_str(), "impl") {
        Some(ItemType::Impl)
    } else {
        None
    }
}

/// A documented item that gets source code attached: it belongs to the
/// local crate, has a span, and is of a kind with source.
pub open spec fn spec_keep_item(it: Item) -> bool {
    &&& it.crate_id == 0
    &&& it.span is Some
    &&& it.inner_kind matches Some(k) && spec_item_kind(k@) is Some
}

/// The lines of the first handed-in file with the given name.
pub open spec fn file_lines_of(files: Seq<SourceFile>, name: Seq<char>) -> Option<Seq<Seq<char>>>
    decreases files.len(),
{
    if files.len() == 0 {
        None
    } else if files[0].filename@ == name {
        Some(files[0].lines.deep_view())
    } else {
        file_lines_of(files.drop_first(), name)
    }
}

fn find_file_from<'a>(files: &'a Vec<SourceFile>, name: &str, i: usize) -> (r: Option<
    &'a Vec<String>,
>)
    requires
        i <= files@.len(),
    ensures
        (r is Some) == (file_lines_of(files@.skip(i as int), name@) is Some),
        r matches Some(l) ==> l.deep_view() == file_lines_of(files@.skip(i as int), name@)->0,
    decreases files@.len() - i,
{
    if i < files.len() {
        assert(files@.skip(i as int)[0] == files@[i as int]);
        assert(files@.skip(i as int).drop_first() =~= files@.skip(i + 1));
        if streq(files[i].filename.as_str(), name) {
            Some(&files[i].lines)
        } else {
            find_file_from(files, name, i + 1)
        }
    } else {
        assert(files@.skip(i as int) =~= Seq::<SourceFile>::empty());
        None
    }
}

/// The 0-based start line of the code attached to `it`: the span's start,
/// moved up over attribute and blank lines for every kind but `impl`.
pub open spec fn spec_code_start(it: Item, files: Seq<SourceFile>) -> int {
    let sp = it.span->0;
    let kind = spec_item_kind(it.inner_kind->0@)->0;
    let lines = file_lines_of(files, sp.filename@)->0;
    let s0: int = if sp.begin.0 >= 1 {
        sp.begin.0 - 1
    } else {
        0
    };
    if kind != ItemType::Impl {
        spec_start_with_attributes(lines, s0)
    } else {
        s0
    }
}

/// The 0-based exclusive end line of the code attached to `it`, clipped to
/// its file.
pub open spec fn spec_code_end(it: Item, files: Seq<SourceFile>) -> int {
    let sp = it.span->0;
    let lines = file_lines_of(files, sp.filename@)->0;
    if sp.end.0 as int <= lines.len() {
        sp.end.0 as int
    } else {
        lines.len() as int
    }
}

/// The source code attached to `it`: the joined line range.
pub open spec fn spec_code_of(it: Item, files: Seq<SourceFile>) -> Seq<char> {
    join_range(
        file_lines_of(files, (it.span->0).filename@)->0,
        spec_code_start(it, files),
        spec_code_end(it, files) - 1,
    )
}

/// The item gets source code attached: it is kept, its file is present,
/// its line range is inside the file, and its code is none of the
/// attribute-only shapes that are dropped.
pub open spec fn spec_buildable(it: Item, files: Seq<SourceFile>) -> bool {
    let kind = spec_item_kind(it.inner_kind->0@)->0;
    let lines = file_lines_of(files, (it.span->0).filename@)->0;
    let s = spec_code_start(it, files);
    let code = spec_code_of(it, files);
    &&& spec_keep_item(it)
    &&& file_lines_of(files, (it.span->0).filename@) is Some
    &&& s < lines.len()
    &&& s < spec_code_end(it, files)
    &&& !(kind == ItemType::Impl && spec_starts_with(skip_spaces(code), "#["@))
    &&& !(kind == ItemType::Function && spec_starts_with(trim_spaces(code), "#["@)
        && !contains_sub(trim_spaces(code), "fn "@))
}

/// What a doc item built from `it` over `files` holds: the item is
/// buildable and the fields carry its name, docs, kind, span and joined
/// source code.
pub open spec fn built_from(d: DocItem, it: Item, files: Seq<SourceFile>) -> bool {
    let sp = it.span->0;
    &&& spec_buildable(it, files)
    &&& d.kind == spec_item_kind(it.inner_kind->0@)->0
    &&& d.name == it.name
    &&& d.doc_string == it.docs
    &&& d.filename == sp.filename
    &&& d.span.start == sp.begin
    &&& d.span.end == sp.end
    &&& d.source_code@ == spec_code_of(it, files)
}

/// The doc item was built from one of the handed-in items.
pub open spec fn from_some_item(d: DocItem, items: Seq<Item>, files: Seq<SourceFile>) -> bool {
    exists|j: int| 0 <= j < items.len() && built_from(d, #[trigger] items[j], files)
}

/// The file range of a span record.
pub open spec fn span_of(sp: Span) -> FileRange {
    FileRange { start: sp.begin, end: sp.end }
}

/// Some buildable item is an `impl` in the same file whose span contains
/// the span of `it`.
pub open spec fn inside_impl_item(it: Item, items: Seq<Item>, files: Seq<SourceFile>) -> bool {
    exists|j2: int|
        0 <= j2 < items.len() && spec_buildable(#[trigger] items[j2], files) && spec_item_kind(
            items[j2].inner_kind->0@,
        )->0 == ItemType::Impl && (items[j2].span->0).filename@ == (it.span->0).filename@
            && spec_span_within(&span_of(items[j2].span->0), &span_of(it.span->0))
}

/// The built item of `it` survives the impl-member pass: it is no function
/// inside some buildable `impl` block of the same file.
pub open spec fn item_survives(it: Item, items: Seq<Item>, files: Seq<SourceFile>) -> bool {
    spec_item_kind(it.inner_kind->0@)->0 != ItemType::Function || !inside_impl_item(
        it,
        items,
        files,
    )
}

/// Builds the doc item of one index item, `None` exactly when the item is
/// not buildable; fails exactly when the item is kept but its file was not
/// handed in.
fn build_doc_item(it: &Item, files: &Vec<SourceFile>) -> (r: Result<
    Option<DocItem>,
    BackendError,
>)
    ensures
        r matches Ok(d2) ==> (d2 matches Some(d) ==> built_from(d, *it, files@)),
        r matches Ok(d2) ==> (d2 is Some) == spec_buildable(*it, files@),
        r matches Err(e) ==> e is Internal,
        (r is Err) ==> spec_keep_item(*it) && file_lines_of(
            files@,
            (it.span->0).filename@,
        ) is None,
{
    if it.crate_id != 0 {
        return Ok(None);
    }
    let kind = match &it.inner_kind {
        Some(tag) => match item_kind_of(tag) {
            Some(k) => k,
            None => {
                return Ok(None);
            },
        },
        None => {
            return Ok(None);
        },
    };
    let sp = match &it.span {
        Some(sp) => sp,
        None => {
            return Ok(None);
        },
    };
    let lines = match find_file_from(files, sp.filename.as_str(), 0) {
        Some(l) => l,
        None => {
            assert(files@.skip(0) =~= files@);
            let mut m = String::from_str("Failed to read source file: ");
            m.append(sp.filename.as_str());
            return Err(BackendError::Internal(m));
        },
    };
    assert(files@.skip(0) =~= files@);
    let s0: usize = if sp.begin.0 >= 1 {
        (sp.begin.0 - 1) as usize
    } else {
        0
    };
    let e: usize = if (sp.end.0 as usize) <= lines.len() {
        sp.end.0 as usize
    } else {
        lines.len()
    };
    let s: usize = if matches!(kind, ItemType::Impl) {
        s0
    } else {
        find_start_line_with_attributes(lines, s0)
    };
    if s >= lines.len() {
        return Ok(None);
    }
    if s >= e {
        return Ok(None);
    }
    let code = extract_lines(lines, s, e - 1);
    let cc = to_chars(code.as_str());
    if matches!(kind, ItemType::Impl) {
        let front = skip_spaces_vec(&cc);
        let p = to_chars("#[");
        if starts_with(&front, &p) {
            return Ok(None);
        }
    }
    if matches!(kind, ItemType::Function) {
        let t = trim_spaces_exec(&cc);
        let p = to_chars("#[");
        if starts_with(&t, &p) {
            let f = to_chars("fn ");
            if !contains_chars(&t, &f) {
                return Ok(None);
            }
        }
    }
    let d = DocItem {
        name: match &it.name {
            Some(s2) => Some(s2.clone()),
            None => None,
        },
        doc_string: match &it.docs {
            Some(s2) => Some(s2.clone()),
            None => None,
        },
        kind,
        source_code: code,
        filename: sp.filename.clone(),
        span: FileRange { start: (sp.begin.0, sp.begin.1), end: (sp.end.0, sp.end.1) },
    };
    Ok(Some(d))
}

/// Transforms documentation index items into structured items with source
/// code: items of foreign crates, without spans, of other kinds, with
/// ranges outside their file, or that are bare attribute blocks are
/// dropped; functions within impl blocks are filtered out afterwards.
/// Fails only when the file a kept item names was not handed in.
pub fn create_doc_items_with_source(items: &Vec<Item>, files: &Vec<SourceFile>) -> (r: Result<
    Vec<DocItem>,
    BackendError,
>)
    ensures
        r matches Ok(out) ==> forall|k: int|
            0 <= k < out@.len() ==> from_some_item(#[trigger] out@[k], items@, files@),
        r matches Ok(out) ==> forall|a: int, b: int|
            0 <= a < out@.len() && 0 <= b < out@.len() && (#[trigger] out@[a]).kind
                == ItemType::Impl && (#[trigger] out@[b]).kind == ItemType::Function
                && out@[a].filename@ == out@[b].filename@ ==> !spec_span_within(
                &out@[a].span,
                &out@[b].span,
            ),
        r matches Ok(out) ==> forall|j: int|
            0 <= j < items@.len() && spec_buildable(#[trigger] items@[j], files@)
                && item_survives(items@[j], items@, files@) ==> exists|k: int|
                0 <= k < out@.len() && built_from(#[trigger] out@[k], items@[j], files@),
        r matches Err(e) ==> e is Internal && exists|j: int|
            0 <= j < items@.len() && spec_keep_item(#[trigger] items@[j]) && file_lines_of(
                files@,
                (items@[j].span->0).filename@,
            ) is None,
{
    let mut built: Vec<DocItem> = Vec::new();
    for i in 0..items.len()
        invariant
            forall|k: int|
                0 <= k < built@.len() ==> from_some_item(#[trigger] built@[k], items@, files@),
            forall|j: int|
                0 <= j < i && spec_buildable(#[trigger] items@[j], files@) ==> exists|k: int|
                    0 <= k < built@.len() && built_from(#[trigger] built@[k], items@[j], files@),
    {
        let ghost prev = built@;
        match build_doc_item(&items[i], files) {
            Ok(Some(d)) => {
                assert(built_from(d, items@[i as int], files@));
                built.push(d);
            },
            Ok(None) => {},
            Err(e) => {
                assert(spec_keep_item(items@[i as int]) && file_lines_of(
                    files@,
                    (items@[i as int].span->0).filename@,
                ) is None);
                return Err(e);
            },
        }
        proof {
            assert forall|j: int|
                0 <= j < i + 1 && spec_buildable(#[trigger] items@[j], files@) implies exists|
                k: int,
            |
                0 <= k < built@.len() && built_from(
                    #[trigger] built@[k],
                    items@[j],
                    files@,
                ) by {
                if j < i {
                    let k = choose|k: int|
                        0 <= k < prev.len() && built_from(#[trigger] prev[k], items@[j], files@);
                    assert(built@[k] == prev[k]);
                } else {
                    assert(built@[built@.len() - 1] == built@.last());
                }
            }
        }
    }
    let ghost built_seq = built@;
    let out = filter_impl_functions(built);
    proof {
        lemma_filtered_prefix_sound(built_seq, built_seq.len() as int);
        lemma_filtered_prefix_complete(built_seq);
        assert forall|j: int|
            0 <= j < items@.len() && spec_buildable(#[trigger] items@[j], files@)
                && item_survives(items@[j], items@, files@) implies exists|k: int|
            0 <= k < out@.len() && built_from(#[trigger] out@[k], items@[j], files@) by {
            let t = choose|t: int|
                0 <= t < built_seq.len() && built_from(
                    #[trigger] built_seq[t],
                    items@[j],
                    files@,
                );
            assert(keeps_item(built_seq[t], built_seq)) by {
                if built_seq[t].kind == ItemType::Function && inside_some_impl(
                    built_seq[t],
                    built_seq,
                ) {
                    let m = choose|m: int|
                        0 <= m < built_seq.len() && (#[trigger] built_seq[m]).kind
                            == ItemType::Impl && built_seq[m].filename@
                            == built_seq[t].filename@ && spec_span_within(
                            &built_seq[m].span,
                            &built_seq[t].span,
                        );
                    let j2 = choose|j2: int|
                        0 <= j2 < items@.len() && built_from(
                            built_seq[m],
                            #[trigger] items@[j2],
                            files@,
                        );
                    assert(spec_span_within(
                        &span_of(items@[j2].span->0),
                        &span_of(items@[j].span->0),
                    ));
                    assert(inside_impl_item(items@[j], items@, files@));
                }
            }
            let k = choose|k: int|
                0 <= k < out@.len() && #[trigger] out@[k] == built_seq[t];
        }
    }
    Ok(out)
}

/// Every element of the original list that survives the impl-member pass
/// occurs in the filtered prefix.
proof fn lemma_filtered_prefix_complete(all: Seq<DocItem>)
    ensures
        forall|t: int|
            0 <= t < all.len() && keeps_item(#[trigger] all[t], all) ==> exists|k: int|
                0 <= k < filtered_prefix(all, all.len() as int).len() && #[trigger] filtered_prefix(
                    all,
                    all.len() as int,
                )[k] == all[t],
{
    lemma_filtered_prefix_complete_upto(all, all.len() as int);
}

/// Every surviving element among the first `i` occurs in the filtered
/// prefix of the first `i`.
proof fn lemma_filtered_prefix_complete_upto(all: Seq<DocItem>, i: int)
    requires
        i <= all.len(),
    ensures
        forall|t: int|
            0 <= t < i && keeps_item(#[trigger] all[t], all) ==> exists|k: int|
                0 <= k < filtered_prefix(all, i).len() && #[trigger] filtered_prefix(all, i)[k]
                    == all[t],
    decreases i,
{
    if i > 0 {
        lemma_filtered_prefix_complete_upto(all, i - 1);
        assert forall|t: int| 0 <= t < i && keeps_item(#[trigger] all[t], all) implies exists|
        k: int,
        |
            0 <= k < filtered_prefix(all, i).len() && #[trigger] filtered_prefix(all, i)[k]
                == all[t] by {
            if t < i - 1 {
                let k = choose|k: int|
                    0 <= k < filtered_prefix(all, i - 1).len() && #[trigger] filtered_prefix(
                        all,
                        i - 1,
                    )[k] == all[t];
                assert(filtered_prefix(all, i)[k] == all[t]);
            } else {
                let last = filtered_prefix(all, i).len() - 1;
                assert(filtered_prefix(all, i)[last] == all[i - 1]);
            }
        }
    }
}

/// Every element of the filtered prefix is an element of the original list
/// that survives the impl-member pass.
proof fn lemma_filtered_prefix_sound(all: Seq<DocItem>, i: int)
    requires
        i <= all.len(),
    ensures
        forall|k: int|
            0 <= k < filtered_prefix(all, i).len() ==> exists|j: int|
                0 <= j < i && #[trigger] filtered_prefix(all, i)[k] == all[j] && keeps_item(
                    all[j],
                    all,
                ),
    decreases i,
{
    if i > 0 {
        lemma_filtered_prefix_sound(all, i - 1);
        assert forall|k: int| 0 <= k < filtered_prefix(all, i).len() implies exists|j: int|
            0 <= j < i && #[trigger] filtered_prefix(all, i)[k] == all[j] && keeps_item(
                all[j],
                all,
            ) by {
            if k < filtered_prefix(all, i - 1).len() {
                let j = choose|j: int|
                    0 <= j < i - 1 && #[trigger] filtered_prefix(all, i - 1)[k] == all[j]
                        && keeps_item(all[j], all);
                assert(filtered_prefix(all, i)[k] == all[j]);
            } else {
                assert(filtered_prefix(all, i)[k] == all[i - 1]);
            }
        }
    }
}

} // verus!
