use vstd::prelude::*;

use vstd::string::StrSliceExecFns;

use crate::model::{
    kind_name, language_name, str_seq, vec_view, ChangeView, ConflictCause, ConflictView,
    DiffSummary, DiffView, EntityView, ExportView, FileSemanticIndex, IndexView, MergeResult,
    MergeStatus, MergeView, SemanticChange, SemanticChangeKind, SemanticConflict, SemanticDiff,
    SnapshotView,
};
use crate::text::{chars_of, joined};

verus! {

// The lines of the human-readable reports of the command line: what `parse`, `diff` and `merge`
// print when no JSON is asked for.

/// The number of bytes that `c` takes in UTF-8.
pub open spec fn utf8_width(c: char) -> int {
    vstd::utf8::encode_scalar(c as u32).len() as int
}

/// The first characters of `v` whose UTF-8 encoding is exactly `n` bytes long, if the `n`-th
/// byte ends a character.
pub open spec fn byte_prefix(v: Seq<char>, n: int) -> Option<Seq<char>>
    decreases v.len(),
{
    if n == 0 {
        Some(seq![])
    } else if n < 0 || v.len() == 0 {
        None
    } else {
        match byte_prefix(v.drop_first(), n - utf8_width(v[0])) {
            Some(p) => Some(seq![v[0]] + p),
            None => None,
        }
    }
}

/// The first eight bytes of a hash, or the whole text when they do not end a character.
pub open spec fn short_hash_text(v: Seq<char>) -> Seq<char> {
    match byte_prefix(v, 8) {
        Some(p) => p,
        None => v,
    }
}

fn char_width(c: char) -> (r: usize)
    ensures
        r == utf8_width(c),
        1 <= r <= 4,
{
    let u = c as u32;
    if u <= 0x7F {
        1
    } else if u <= 0x7FF {
        2
    } else if u <= 0xFFFF {
        proof {
            vstd::utf8::char_is_scalar(c);
        }
        3
    } else {
        proof {
            vstd::utf8::char_is_scalar(c);
        }
        4
    }
}

/// The first eight bytes of `value` when they end a character, else `value` itself.
pub fn short_hash(value: &str) -> (r: &str)
    ensures
        r@ == short_hash_text(value@),
{
    let cs = chars_of(value);
    let n = cs.len();
    let mut i: usize = 0;
    let mut rem: usize = 8;
    assert(value@.skip(0) =~= value@);
    assert(value@.take(0) =~= Seq::<char>::empty());
    while i < n && rem > 0
        invariant
            cs@ == value@,
            n == value@.len(),
            0 <= i <= n,
            rem <= 8,
            byte_prefix(value@, 8) == match byte_prefix(value@.skip(i as int), rem as int) {
                Some(p) => Some(value@.take(i as int) + p),
                None => None,
            },
        decreases n - i,
    {
        let w = char_width(cs[i]);
        let ghost t = value@.skip(i as int);
        assert(t[0] == cs@[i as int]);
        assert(t.drop_first() =~= value@.skip(i + 1));
        if w > rem {
            assert(byte_prefix(t, rem as int) is None);
            return value;
        }
        proof {
            if let Some(p) = byte_prefix(value@.skip(i + 1), rem - w) {
                assert(value@.take(i as int) + (seq![cs@[i as int]] + p) =~= value@.take(i + 1) + p);
            }
        }
        rem = rem - w;
        i = i + 1;
    }
    if rem > 0 {
        assert(value@.skip(i as int).len() == 0);
        return value;
    }
    assert(value@.take(i as int) + Seq::<char>::empty() =~= value@.subrange(0, i as int));
    value.substring_char(0, i)
}

/// The report name of a change kind.
pub open spec fn change_kind_text(kind: SemanticChangeKind) -> Seq<char> {
    match kind {
        SemanticChangeKind::Unchanged => "unchanged"@,
        SemanticChangeKind::Moved => "moved"@,
        SemanticChangeKind::SignatureChanged => "signature_changed"@,
        SemanticChangeKind::ImplementationChanged => "implementation_changed"@,
        SemanticChangeKind::Renamed => "renamed"@,
        SemanticChangeKind::Inserted => "inserted"@,
        SemanticChangeKind::Deleted => "deleted"@,
        SemanticChangeKind::Split => "split"@,
        SemanticChangeKind::Merged => "merged"@,
    }
}

pub fn change_kind_label(kind: &SemanticChangeKind) -> (r: &'static str)
    ensures
        r@ == change_kind_text(*kind),
{
    match kind {
        SemanticChangeKind::Unchanged => "unchanged",
        SemanticChangeKind::Moved => "moved",
        SemanticChangeKind::SignatureChanged => "signature_changed",
        SemanticChangeKind::ImplementationChanged => "implementation_changed",
        SemanticChangeKind::Renamed => "renamed",
        SemanticChangeKind::Inserted => "inserted",
        SemanticChangeKind::Deleted => "deleted",
        SemanticChangeKind::Split => "split",
        SemanticChangeKind::Merged => "merged",
    }
}

pub open spec fn digit_char(d: nat) -> char {
    if d == 0 {
        '0'
    } else if d == 1 {
        '1'
    } else if d == 2 {
        '2'
    } else if d == 3 {
        '3'
    } else if d == 4 {
        '4'
    } else if d == 5 {
        '5'
    } else if d == 6 {
        '6'
    } else if d == 7 {
        '7'
    } else if d == 8 {
        '8'
    } else {
        '9'
    }
}

/// The decimal digits of `n`.
pub open spec fn decimal(n: nat) -> Seq<char>
    decreases n,
{
    if n < 10 {
        seq![digit_char(n)]
    } else {
        decimal(n / 10).push(digit_char(n % 10))
    }
}

fn digit(d: usize) -> (r: char)
    requires
        d < 10,
    ensures
        r == digit_char(d as nat),
{
    if d == 0 {
        '0'
    } else if d == 1 {
        '1'
    } else if d == 2 {
        '2'
    } else if d == 3 {
        '3'
    } else if d == 4 {
        '4'
    } else if d == 5 {
        '5'
    } else if d == 6 {
        '6'
    } else if d == 7 {
        '7'
    } else if d == 8 {
        '8'
    } else {
        '9'
    }
}

/// `n` in decimal.
pub fn decimal_text(n: usize) -> (r: String)
    ensures
        r@ == decimal(n as nat),
    decreases n,
{
    if n < 10 {
        let mut s = String::new();
        s.push(digit(n));
        assert(s@ =~= seq![digit_char(n as nat)]);
        s
    } else {
        let mut s = decimal_text(n / 10);
        s.push(digit(n % 10));
        s
    }
}

/// `s` padded with spaces on the right to `width` characters.
pub open spec fn pad_right(s: Seq<char>, width: nat) -> Seq<char> {
    if s.len() >= width {
        s
    } else {
        s + Seq::new((width - s.len()) as nat, |i: int| ' ')
    }
}

fn padded(s: &str, width: usize) -> (r: String)
    ensures
        r@ == pad_right(s@, width as nat),
{
    let n = chars_of(s).len();
    let mut out = String::new();
    out.append(s);
    let mut k = n;
    while k < width
        invariant
            n == s@.len(),
            n <= k <= width || (k == n && n >= width),
            out@ == s@ + Seq::new((k - n) as nat, |i: int| ' '),
        decreases width - k,
    {
        out.push(' ');
        assert(out@ =~= s@ + Seq::new((k + 1 - n) as nat, |i: int| ' '));
        k = k + 1;
    }
    assert(out@ =~= pad_right(s@, width as nat));
    out
}

/// The first line of the `parse` report.
pub open spec fn parse_header(index: IndexView) -> Seq<char> {
    "Parsed "@ + decimal(index.entities.len()) + " entities from "@ + index.path + " ("@
        + language_name(index.language) + ")"@
}

/// The report line of one entity: kind, path, and the short forms of its id and hashes.
pub open spec fn entity_line(e: EntityView) -> Seq<char> {
    "- "@ + pad_right(kind_name(e.kind), 10) + " "@ + pad_right(e.path, 30) + " id="@
        + short_hash_text(e.id) + " body="@ + short_hash_text(e.body_hash) + " sig="@
        + short_hash_text(e.signature_hash)
}

/// The report line of one export.
pub open spec fn export_line(x: ExportView) -> Seq<char> {
    "- "@ + x.exported_name + " -> "@ + x.local_name + match x.entity_id {
        Some(id) => " ("@ + short_hash_text(id) + ")"@,
        None => seq![],
    }
}

/// The lines that `parse` prints for an index.
pub open spec fn parse_report(index: IndexView) -> Seq<Seq<char>> {
    seq![parse_header(index)] + index.entities.map_values(|e: EntityView| entity_line(e)) + if index.exports.len()
        == 0 {
        seq![]
    } else {
        seq!["Exports:"@] + index.exports.map_values(|x: ExportView| export_line(x))
    }
}

fn entity_report_line(e: &crate::model::SemanticEntity) -> (r: String)
    ensures
        r@ == entity_line(e@),
{
    let mut s = String::new();
    s.append("- ");
    let kind = padded(e.kind.as_str(), 10);
    s.append(kind.as_str());
    s.append(" ");
    let path = padded(e.path.as_str(), 30);
    s.append(path.as_str());
    s.append(" id=");
    s.append(short_hash(e.id.as_str()));
    s.append(" body=");
    s.append(short_hash(e.body_hash.as_str()));
    s.append(" sig=");
    s.append(short_hash(e.signature_hash.as_str()));
    assert(s@ =~= entity_line(e@));
    s
}

fn export_report_line(x: &crate::model::ExportBinding) -> (r: String)
    ensures
        r@ == export_line(x@),
{
    let mut s = String::new();
    s.append("- ");
    s.append(x.exported_name.as_str());
    s.append(" -> ");
    s.append(x.local_name.as_str());
    match &x.entity_id {
        Some(id) => {
            s.append(" (");
            s.append(short_hash(id.as_str()));
            s.append(")");
        },
        None => {},
    }
    assert(s@ =~= export_line(x@));
    s
}

/// The lines of the `parse` report of `index`.
pub fn parse_report_lines(index: &FileSemanticIndex) -> (r: Vec<String>)
    ensures
        str_seq(r@) == parse_report(index@),
{
    let ghost iv = index@;
    let mut lines: Vec<String> = Vec::new();
    let mut header = String::new();
    header.append("Parsed ");
    let count = decimal_text(index.entities.len());
    header.append(count.as_str());
    header.append(" entities from ");
    header.append(index.path.as_str());
    header.append(" (");
    header.append(index.language.as_str());
    header.append(")");
    assert(header@ =~= parse_header(iv));
    lines.push(header);
    let ghost es = iv.entities.map_values(|e: EntityView| entity_line(e));
    let n = index.entities.len();
    let mut i: usize = 0;
    assert(str_seq(lines@) =~= seq![parse_header(iv)] + es.take(0));
    while i < n
        invariant
            iv == index@,
            n == iv.entities.len(),
            es == iv.entities.map_values(|e: EntityView| entity_line(e)),
            0 <= i <= n,
            str_seq(lines@) == seq![parse_header(iv)] + es.take(i as int),
        decreases n - i,
    {
        let line = entity_report_line(&index.entities[i]);
        let ghost before = str_seq(lines@);
        let ghost lv = line@;
        lines.push(line);
        assert(iv.entities[i as int] == index.entities@[i as int]@);
        assert(es[i as int] == lv);
        assert(str_seq(lines@) =~= before.push(lv));
        assert(es.take(i + 1) =~= es.take(i as int).push(es[i as int]));
        assert(str_seq(lines@) =~= seq![parse_header(iv)] + es.take(i + 1));
        i = i + 1;
    }
    assert(es.take(n as int) =~= es);
    if index.exports.len() > 0 {
        let ghost before = str_seq(lines@);
        lines.push("Exports:".to_owned());
        let ghost xs = iv.exports.map_values(|x: ExportView| export_line(x));
        let m = index.exports.len();
        let mut j: usize = 0;
        assert(str_seq(lines@) =~= before + (seq!["Exports:"@] + xs.take(0)));
        while j < m
            invariant
                iv == index@,
                m == iv.exports.len(),
                xs == iv.exports.map_values(|x: ExportView| export_line(x)),
                0 <= j <= m,
                str_seq(lines@) == before + (seq!["Exports:"@] + xs.take(j as int)),
            decreases m - j,
        {
            let line = export_report_line(&index.exports[j]);
            let ghost prev = str_seq(lines@);
            let ghost lv = line@;
            lines.push(line);
            assert(iv.exports[j as int] == index.exports@[j as int]@);
            assert(xs[j as int] == lv);
            assert(str_seq(lines@) =~= prev.push(lv));
            assert(xs.take(j + 1) =~= xs.take(j as int).push(xs[j as int]));
            assert(str_seq(lines@) =~= before + (seq!["Exports:"@] + xs.take(j + 1)));
            j = j + 1;
        }
        assert(xs.take(m as int) =~= xs);
    } else {
        assert(str_seq(lines@) =~= str_seq(lines@) + Seq::<Seq<char>>::empty());
    }
    lines
}

/// The summary line of a diff.
pub open spec fn summary_line(s: DiffSummary) -> Seq<char> {
    "Summary: unchanged="@ + decimal(s.unchanged as nat) + " moved="@ + decimal(s.moved as nat)
        + " renamed="@ + decimal(s.renamed as nat) + " signature="@ + decimal(
        s.signature_changed as nat,
    ) + " implementation="@ + decimal(s.implementation_changed as nat) + " inserted="@ + decimal(
        s.inserted as nat,
    ) + " deleted="@ + decimal(s.deleted as nat) + " split="@ + decimal(s.split as nat)
        + " merged="@ + decimal(s.merged as nat)
}

fn summary_report_line(s: &DiffSummary) -> (r: String)
    ensures
        r@ == summary_line(*s),
{
    let mut out = String::new();
    out.append("Summary: unchanged=");
    out.append(decimal_text(s.unchanged).as_str());
    out.append(" moved=");
    out.append(decimal_text(s.moved).as_str());
    out.append(" renamed=");
    out.append(decimal_text(s.renamed).as_str());
    out.append(" signature=");
    out.append(decimal_text(s.signature_changed).as_str());
    out.append(" implementation=");
    out.append(decimal_text(s.implementation_changed).as_str());
    out.append(" inserted=");
    out.append(decimal_text(s.inserted).as_str());
    out.append(" deleted=");
    out.append(decimal_text(s.deleted).as_str());
    out.append(" split=");
    out.append(decimal_text(s.split).as_str());
    out.append(" merged=");
    out.append(decimal_text(s.merged).as_str());
    assert(out@ =~= summary_line(*s));
    out
}

/// The path that a change is reported under: its current entity's, else its previous one's.
pub open spec fn change_label(c: ChangeView) -> Seq<char> {
    match c.current {
        Some(s) => s.path,
        None => match c.previous {
            Some(s) => s.path,
            None => "<unknown>"@,
        },
    }
}

/// The kinds of a change, by their report names, separated by commas.
pub open spec fn kinds_text(kinds: Seq<SemanticChangeKind>) -> Seq<char> {
    joined(kinds.map_values(|k: SemanticChangeKind| change_kind_text(k)), ", "@)
}

fn change_label_of(c: &SemanticChange) -> (r: &str)
    ensures
        r@ == change_label(c@),
{
    match &c.current {
        Some(s) => s.path.as_str(),
        None => match &c.previous {
            Some(s) => s.path.as_str(),
            None => "<unknown>",
        },
    }
}

fn kinds_report(kinds: &Vec<SemanticChangeKind>) -> (r: String)
    ensures
        r@ == kinds_text(kinds@),
{
    let mut labels: Vec<String> = Vec::new();
    let n = kinds.len();
    let mut i: usize = 0;
    while i < n
        invariant
            n == kinds@.len(),
            0 <= i <= n,
            str_seq(labels@) == kinds@.take(i as int).map_values(
                |k: SemanticChangeKind| change_kind_text(k),
            ),
        decreases n - i,
    {
        let label = change_kind_label(&kinds[i]).to_owned();
        let ghost before = str_seq(labels@);
        let ghost lv = label@;
        labels.push(label);
        assert(lv == change_kind_text(kinds@[i as int]));
        assert(str_seq(labels@) =~= before.push(lv));
        assert(str_seq(labels@) =~= kinds@.take(i + 1).map_values(
            |k: SemanticChangeKind| change_kind_text(k),
        ));
        i = i + 1;
    }
    assert(kinds@.take(n as int) =~= kinds@);
    crate::text::join_with(&labels, ", ")
}

/// The two lines of one change in the `diff` report.
pub open spec fn change_lines(c: ChangeView) -> Seq<Seq<char>> {
    seq!["- "@ + change_label(c) + " ["@ + kinds_text(c.kinds) + "]"@, "  "@ + c.explanation]
}

pub open spec fn all_change_lines(cs: Seq<ChangeView>) -> Seq<Seq<char>>
    decreases cs.len(),
{
    if cs.len() == 0 {
        seq![]
    } else {
        all_change_lines(cs.drop_last()) + change_lines(cs.last())
    }
}

/// The lines that `diff` prints for a diff.
pub open spec fn diff_report(d: DiffView) -> Seq<Seq<char>> {
    seq!["Diff "@ + d.old_path + " -> "@ + d.new_path, summary_line(d.summary)] + all_change_lines(
        d.changes,
    )
}

/// The lines of the `diff` report of `diff`.
pub fn diff_report_lines(diff: &SemanticDiff) -> (r: Vec<String>)
    ensures
        str_seq(r@) == diff_report(diff@),
{
    let ghost dv = diff@;
    let mut lines: Vec<String> = Vec::new();
    let mut head = String::new();
    head.append("Diff ");
    head.append(diff.old_path.as_str());
    head.append(" -> ");
    head.append(diff.new_path.as_str());
    lines.push(head);
    lines.push(summary_report_line(&diff.summary));
    let ghost top = seq!["Diff "@ + dv.old_path + " -> "@ + dv.new_path, summary_line(dv.summary)];
    assert(str_seq(lines@) =~= top + all_change_lines(dv.changes.take(0)));
    let n = diff.changes.len();
    let mut i: usize = 0;
    while i < n
        invariant
            dv == diff@,
            n == dv.changes.len(),
            0 <= i <= n,
            str_seq(lines@) == top + all_change_lines(dv.changes.take(i as int)),
        decreases n - i,
    {
        let c = &diff.changes[i];
        let mut first = String::new();
        first.append("- ");
        first.append(change_label_of(c));
        first.append(" [");
        first.append(kinds_report(&c.kinds).as_str());
        first.append("]");
        let mut second = String::new();
        second.append("  ");
        second.append(c.explanation.as_str());
        let ghost before = str_seq(lines@);
        lines.push(first);
        lines.push(second);
        proof {
            let t = dv.changes.take(i + 1);
            assert(t.drop_last() =~= dv.changes.take(i as int));
            assert(t.last() == c@);
            assert(str_seq(lines@) =~= before + change_lines(c@));
        }
        i = i + 1;
    }
    assert(dv.changes.take(n as int) =~= dv.changes);
    lines
}

pub open spec fn status_text(s: MergeStatus) -> Seq<char> {
    match s {
        MergeStatus::Clean => "Clean"@,
        MergeStatus::Conflicted => "Conflicted"@,
    }
}

pub open spec fn cause_text(c: ConflictCause) -> Seq<char> {
    match c {
        ConflictCause::ConcurrentModification => "ConcurrentModification"@,
        ConflictCause::RenameVsModification => "RenameVsModification"@,
        ConflictCause::DeleteVsModification => "DeleteVsModification"@,
        ConflictCause::DivergentRename => "DivergentRename"@,
        ConflictCause::ConcurrentInsertion => "ConcurrentInsertion"@,
        ConflictCause::AmbiguousSplit => "AmbiguousSplit"@,
        ConflictCause::AmbiguousMerge => "AmbiguousMerge"@,
    }
}

fn cause_name(c: ConflictCause) -> (r: &'static str)
    ensures
        r@ == cause_text(c),
{
    match c {
        ConflictCause::ConcurrentModification => "ConcurrentModification",
        ConflictCause::RenameVsModification => "RenameVsModification",
        ConflictCause::DeleteVsModification => "DeleteVsModification",
        ConflictCause::DivergentRename => "DivergentRename",
        ConflictCause::ConcurrentInsertion => "ConcurrentInsertion",
        ConflictCause::AmbiguousSplit => "AmbiguousSplit",
        ConflictCause::AmbiguousMerge => "AmbiguousMerge",
    }
}

/// The path that a conflict is reported under: ours, else theirs, else the base's.
pub open spec fn conflict_label(c: ConflictView) -> Seq<char> {
    match c.ours {
        Some(s) => s.path,
        None => match c.theirs {
            Some(s) => s.path,
            None => match c.base {
                Some(s) => s.path,
                None => "<unknown>"@,
            },
        },
    }
}

fn conflict_label_of(c: &SemanticConflict) -> (r: &str)
    ensures
        r@ == conflict_label(c@),
{
    match &c.ours {
        Some(s) => s.path.as_str(),
        None => match &c.theirs {
            Some(s) => s.path.as_str(),
            None => match &c.base {
                Some(s) => s.path.as_str(),
                None => "<unknown>",
            },
        },
    }
}

pub open spec fn resolved_line(c: ChangeView) -> Seq<char> {
    "- resolved "@ + change_label(c) + " ["@ + kinds_text(c.kinds) + "]"@
}

pub open spec fn conflict_lines(c: ConflictView) -> Seq<Seq<char>> {
    seq!["- conflict "@ + conflict_label(c) + " ["@ + cause_text(c.cause) + "]"@, "  "@ + c.message]
}

pub open spec fn all_conflict_lines(cs: Seq<ConflictView>) -> Seq<Seq<char>>
    decreases cs.len(),
{
    if cs.len() == 0 {
        seq![]
    } else {
        all_conflict_lines(cs.drop_last()) + conflict_lines(cs.last())
    }
}

/// The lines that `merge` prints for a merge.
pub open spec fn merge_report(m: MergeView) -> Seq<Seq<char>> {
    seq![
        "Merge status: "@ + status_text(m.status),
        "Resolved changes: "@ + decimal(m.resolved_changes.len()) + ", conflicts: "@ + decimal(
            m.conflicts.len(),
        ),
    ] + m.resolved_changes.map_values(|c: ChangeView| resolved_line(c)) + all_conflict_lines(
        m.conflicts,
    )
}

/// The lines of the `merge` report of `merge`.
pub fn merge_report_lines(merge: &MergeResult) -> (r: Vec<String>)
    ensures
        str_seq(r@) == merge_report(merge@),
{
    let ghost mv = merge@;
    let mut lines: Vec<String> = Vec::new();
    let mut status = String::new();
    status.append("Merge status: ");
    match merge.status {
        MergeStatus::Clean => status.append("Clean"),
        MergeStatus::Conflicted => status.append("Conflicted"),
    }
    let mut counts = String::new();
    counts.append("Resolved changes: ");
    counts.append(decimal_text(merge.resolved_changes.len()).as_str());
    counts.append(", conflicts: ");
    counts.append(decimal_text(merge.conflicts.len()).as_str());
    lines.push(status);
    lines.push(counts);
    let ghost top = seq![
        "Merge status: "@ + status_text(mv.status),
        "Resolved changes: "@ + decimal(mv.resolved_changes.len()) + ", conflicts: "@ + decimal(
            mv.conflicts.len(),
        ),
    ];
    let ghost rs = mv.resolved_changes.map_values(|c: ChangeView| resolved_line(c));
    assert(str_seq(lines@) =~= top + rs.take(0));
    let n = merge.resolved_changes.len();
    let mut i: usize = 0;
    while i < n
        invariant
            mv == merge@,
            n == mv.resolved_changes.len(),
            rs == mv.resolved_changes.map_values(|c: ChangeView| resolved_line(c)),
            0 <= i <= n,
            str_seq(lines@) == top + rs.take(i as int),
        decreases n - i,
    {
        let c = &merge.resolved_changes[i];
        let mut line = String::new();
        line.append("- resolved ");
        line.append(change_label_of(c));
        line.append(" [");
        line.append(kinds_report(&c.kinds).as_str());
        line.append("]");
        let ghost before = str_seq(lines@);
        let ghost lv = line@;
        lines.push(line);
        assert(mv.resolved_changes[i as int] == c@);
        assert(rs[i as int] == lv);
        assert(str_seq(lines@) =~= before.push(lv));
        assert(rs.take(i + 1) =~= rs.take(i as int).push(rs[i as int]));
        assert(str_seq(lines@) =~= top + rs.take(i + 1));
        i = i + 1;
    }
    assert(rs.take(n as int) =~= rs);
    let ghost mid = str_seq(lines@);
    assert(str_seq(lines@) =~= mid + all_conflict_lines(mv.conflicts.take(0)));
    let m = merge.conflicts.len();
    let mut j: usize = 0;
    while j < m
        invariant
            mv == merge@,
            m == mv.conflicts.len(),
            0 <= j <= m,
            str_seq(lines@) == mid + all_conflict_lines(mv.conflicts.take(j as int)),
        decreases m - j,
    {
        let c = &merge.conflicts[j];
        let mut first = String::new();
        first.append("- conflict ");
        first.append(conflict_label_of(c));
        first.append(" [");
        first.append(cause_name(c.cause));
        first.append("]");
        let mut second = String::new();
        second.append("  ");
        second.append(c.message.as_str());
        let ghost before = str_seq(lines@);
        lines.push(first);
        lines.push(second);
        proof {
            let t = mv.conflicts.take(j + 1);
            assert(t.drop_last() =~= mv.conflicts.take(j as int));
            assert(t.last() == c@);
            assert(str_seq(lines@) =~= before + conflict_lines(c@));
        }
        j = j + 1;
    }
    assert(mv.conflicts.take(m as int) =~= mv.conflicts);
    lines
}

/// The label of the counter of kind `k` in a diff's summary line.
pub open spec fn summary_label(k: SemanticChangeKind) -> Seq<char> {
    match k {
        SemanticChangeKind::Unchanged => "unchanged"@,
        SemanticChangeKind::Moved => "moved"@,
        SemanticChangeKind::Renamed => "renamed"@,
        SemanticChangeKind::SignatureChanged => "signature"@,
        SemanticChangeKind::ImplementationChanged => "implementation"@,
        SemanticChangeKind::Inserted => "inserted"@,
        SemanticChangeKind::Deleted => "deleted"@,
        SemanticChangeKind::Split => "split"@,
        SemanticChangeKind::Merged => "merged"@,
    }
}

/// Whether `line` shows, as one space-separated word, `label`, `=` and the decimal digits of
/// `n`.
pub open spec fn shows_counter(line: Seq<char>, label: Seq<char>, n: nat) -> bool {
    let w = label + "="@ + decimal(n);
    exists|i: int|
        #![trigger line.subrange(i, i + w.len())]
        0 < i && i + w.len() <= line.len() && line[i - 1] == ' ' && line.subrange(i, i + w.len()) == w
            && (i + w.len() == line.len() || line[i + w.len()] == ' ')
}

proof fn lemma_shows(line: Seq<char>, p: Seq<char>, label: Seq<char>, n: nat, q: Seq<char>)
    requires
        line == p + (label + "="@ + decimal(n)) + q,
        p.len() > 0,
        p.last() == ' ',
        q.len() == 0 || q[0] == ' ',
    ensures
        shows_counter(line, label, n),
{
    let w = label + "="@ + decimal(n);
    let i = p.len() as int;
    assert(line.subrange(i, i + w.len()) =~= w);
    assert(line[i - 1] == p.last());
    if q.len() > 0 {
        assert(line[i + w.len()] == q[0]);
    }
}

/// The words of a diff's summary line after `Summary:`, one per counter.
spec fn summary_words(s: DiffSummary) -> Seq<Seq<char>> {
    seq![
        "unchanged"@ + "="@ + decimal(s.unchanged as nat),
        "moved"@ + "="@ + decimal(s.moved as nat),
        "renamed"@ + "="@ + decimal(s.renamed as nat),
        "signature"@ + "="@ + decimal(s.signature_changed as nat),
        "implementation"@ + "="@ + decimal(s.implementation_changed as nat),
        "inserted"@ + "="@ + decimal(s.inserted as nat),
        "deleted"@ + "="@ + decimal(s.deleted as nat),
        "split"@ + "="@ + decimal(s.split as nat),
        "merged"@ + "="@ + decimal(s.merged as nat),
    ]
}

spec fn spaced(ws: Seq<Seq<char>>) -> Seq<char>
    decreases ws.len(),
{
    if ws.len() == 0 {
        seq![]
    } else {
        spaced(ws.drop_last()) + seq![' '] + ws.last()
    }
}

proof fn lemma_spaced_word(ws: Seq<Seq<char>>, i: int)
    requires
        0 <= i < ws.len(),
    ensures
        exists|p: Seq<char>, q: Seq<char>|
            #![trigger p + ws[i] + q]
            spaced(ws) == p + ws[i] + q && p.len() > 0 && p.last() == ' ' && (q.len() == 0 || q[0]
                == ' '),
    decreases ws.len(),
{
    let d = ws.drop_last();
    if i == ws.len() - 1 {
        let p = spaced(d) + seq![' '];
        let q = Seq::<char>::empty();
        assert(spaced(ws) =~= p + ws[i] + q);
    } else {
        lemma_spaced_word(d, i);
        let (p, q) = choose|p: Seq<char>, q: Seq<char>|
            #![trigger p + d[i] + q]
            spaced(d) == p + d[i] + q && p.len() > 0 && p.last() == ' ' && (q.len() == 0 || q[0]
                == ' ');
        let q2 = q + seq![' '] + ws.last();
        assert(d[i] == ws[i]);
        assert(spaced(ws) =~= p + ws[i] + q2);
        assert(q2.len() > 0);
        if q.len() == 0 {
            assert(q2[0] == ' ');
        } else {
            assert(q2[0] == q[0]);
        }
    }
}

#[verifier::rlimit(50)]
proof fn lemma_summary_layout(s: DiffSummary)
    ensures
        summary_line(s) == "Summary:"@ + spaced(summary_words(s)),
{
    reveal_strlit("Summary: unchanged=");
    reveal_strlit("Summary:");
    reveal_strlit(" moved=");
    reveal_strlit(" renamed=");
    reveal_strlit(" signature=");
    reveal_strlit(" implementation=");
    reveal_strlit(" inserted=");
    reveal_strlit(" deleted=");
    reveal_strlit(" split=");
    reveal_strlit(" merged=");
    reveal_strlit("unchanged");
    reveal_strlit("moved");
    reveal_strlit("renamed");
    reveal_strlit("signature");
    reveal_strlit("implementation");
    reveal_strlit("inserted");
    reveal_strlit("deleted");
    reveal_strlit("split");
    reveal_strlit("merged");
    reveal_strlit("=");
    let ws = summary_words(s);
    let h = "Summary:"@;
    assert(spaced(ws.take(0)) =~= Seq::<char>::empty());
    assert(ws.take(1).drop_last() =~= ws.take(0));
    assert(ws.take(1).last() == ws[0]);
    assert(ws.take(2).drop_last() =~= ws.take(1));
    assert(ws.take(2).last() == ws[1]);
    assert(ws.take(3).drop_last() =~= ws.take(2));
    assert(ws.take(3).last() == ws[2]);
    assert(ws.take(4).drop_last() =~= ws.take(3));
    assert(ws.take(4).last() == ws[3]);
    assert(ws.take(5).drop_last() =~= ws.take(4));
    assert(ws.take(5).last() == ws[4]);
    assert(ws.take(6).drop_last() =~= ws.take(5));
    assert(ws.take(6).last() == ws[5]);
    assert(ws.take(7).drop_last() =~= ws.take(6));
    assert(ws.take(7).last() == ws[6]);
    assert(ws.take(8).drop_last() =~= ws.take(7));
    assert(ws.take(8).last() == ws[7]);
    assert(ws.take(9).drop_last() =~= ws.take(8));
    assert(ws.take(9).last() == ws[8]);
    let x0 = ("Summary: unchanged="@ + decimal(s.unchanged as nat));
    assert(x0 =~= h + spaced(ws.take(1)));
    let x1 = x0 + " moved="@ + decimal(s.moved as nat);
    assert(x1 =~= h + spaced(ws.take(2)));
    let x2 = x1 + " renamed="@ + decimal(s.renamed as nat);
    assert(x2 =~= h + spaced(ws.take(3)));
    let x3 = x2 + " signature="@ + decimal(s.signature_changed as nat);
    assert(x3 =~= h + spaced(ws.take(4)));
    let x4 = x3 + " implementation="@ + decimal(s.implementation_changed as nat);
    assert(x4 =~= h + spaced(ws.take(5)));
    let x5 = x4 + " inserted="@ + decimal(s.inserted as nat);
    assert(x5 =~= h + spaced(ws.take(6)));
    let x6 = x5 + " deleted="@ + decimal(s.deleted as nat);
    assert(x6 =~= h + spaced(ws.take(7)));
    let x7 = x6 + " split="@ + decimal(s.split as nat);
    assert(x7 =~= h + spaced(ws.take(8)));
    let x8 = x7 + " merged="@ + decimal(s.merged as nat);
    assert(x8 =~= h + spaced(ws.take(9)));
    assert(ws.take(9) =~= ws);
    assert(summary_line(s) == x8);
}

/// A diff's summary line shows each counter of the summary under the label of its kind: the
/// number after `inserted=` is the count of insertions, the one after `deleted=` the count of
/// deletions, and so on for every kind.
pub proof fn summary_line_shows_every_counter(s: DiffSummary, k: SemanticChangeKind)
    ensures
        shows_counter(summary_line(s), summary_label(k), s.count(k) as nat),
{
    lemma_summary_layout(s);
    let ws = summary_words(s);
    let i: int = match k {
        SemanticChangeKind::Unchanged => 0,
        SemanticChangeKind::Moved => 1,
        SemanticChangeKind::Renamed => 2,
        SemanticChangeKind::SignatureChanged => 3,
        SemanticChangeKind::ImplementationChanged => 4,
        SemanticChangeKind::Inserted => 5,
        SemanticChangeKind::Deleted => 6,
        SemanticChangeKind::Split => 7,
        SemanticChangeKind::Merged => 8,
    };
    assert(ws[i] == summary_label(k) + "="@ + decimal(s.count(k) as nat));
    lemma_spaced_word(ws, i);
    let (p, q) = choose|p: Seq<char>, q: Seq<char>|
        #![trigger p + ws[i] + q]
        spaced(ws) == p + ws[i] + q && p.len() > 0 && p.last() == ' ' && (q.len() == 0 || q[0]
            == ' ');
    let p2 = "Summary:"@ + p;
    assert(summary_line(s) =~= p2 + ws[i] + q);
    lemma_shows(summary_line(s), p2, summary_label(k), s.count(k) as nat, q);
}
} // verus!
