//! Splitting a Markdown file into notes, one for each `## ` header.
use vstd::prelude::*;
use crate::text::{
    chars_of, is_space, is_space_spec, lines_spec, skip_space, split_lines, string_range, trim,
    trim_spec, views,
};

verus! {

/// A note as read from a file: its header text and the lines of its body.
#[derive(Debug, Hash)]
pub struct NoteFields {
    pub header: String,
    pub body_lines: Vec<String>,
}

/// The value of a note: its header and its body lines.
pub struct NoteModel {
    pub header: Seq<char>,
    pub body_lines: Seq<Seq<char>>,
}

impl View for NoteFields {
    type V = NoteModel;

    open spec fn view(&self) -> NoteModel {
        NoteModel { header: self.header@, body_lines: views(self.body_lines@) }
    }
}

impl PartialEq for NoteFields {
    fn eq(&self, o: &NoteFields) -> (r: bool) {
        self.header == o.header && string_vecs_eq(&self.body_lines, &o.body_lines)
    }
}

impl vstd::std_specs::cmp::PartialEqSpecImpl for NoteFields {
    open spec fn obeys_eq_spec() -> bool {
        true
    }

    open spec fn eq_spec(&self, o: &NoteFields) -> bool {
        self@ == o@
    }
}

impl Eq for NoteFields {

}

/// Whether two lists of strings hold the same strings in the same order.
pub fn string_vecs_eq(a: &Vec<String>, b: &Vec<String>) -> (r: bool)
    ensures
        r == (views(a@) == views(b@)),
{
    if a.len() != b.len() {
        proof {
            assert(views(a@).len() != views(b@).len());
        }
        return false;
    }
    let mut i: usize = 0;
    while i < a.len()
        invariant
            a@.len() == b@.len(),
            i <= a@.len(),
            forall|k: int| 0 <= k < i ==> a@[k]@ == b@[k]@,
        decreases a@.len() - i,
    {
        if a[i] != b[i] {
            proof {
                assert(views(a@)[i as int] != views(b@)[i as int]);
            }
            return false;
        }
        i = i + 1;
    }
    assert(views(a@) =~= views(b@));
    true
}

/// The views of a sequence of notes.
pub open spec fn note_views(v: Seq<NoteFields>) -> Seq<NoteModel> {
    v.map_values(|n: NoteFields| n@)
}

/// The view of the note being read, if any.
pub open spec fn opt_view(n: Option<NoteFields>) -> Option<NoteModel> {
    match n {
        Some(c) => Some(c@),
        None => None,
    }
}

/// The header text of a trimmed line of the form `##`, whitespace, text.
pub open spec fn header_text(t: Seq<char>) -> Option<Seq<char>> {
    if t.len() >= 3 && t[0] == '#' && t[1] == '#' && is_space_spec(t[2]) && skip_space(t, 2)
        < t.len() {
        Some(t.subrange(skip_space(t, 2), t.len() as int))
    } else {
        None
    }
}

/// Whether a trimmed line is an HTML comment `<!-- ... -->` and nothing else.
pub open spec fn is_comment(t: Seq<char>) -> bool {
    t.len() >= 7 && t[0] == '<' && t[1] == '!' && t[2] == '-' && t[3] == '-' && t[t.len() - 3]
        == '-' && t[t.len() - 2] == '-' && t[t.len() - 1] == '>'
}

/// Where the scan of a file stands: the notes completed, and the note being read.
pub struct ScanModel {
    pub done: Seq<NoteModel>,
    pub current: Option<NoteModel>,
}

/// The scan after one more line. Blank and comment lines are skipped; a
/// header starts a new note; any other line, untrimmed, joins the body of the
/// note being read, and is dropped before the first header.
pub open spec fn scan_step(st: ScanModel, line: Seq<char>) -> ScanModel {
    let t = trim_spec(line);
    if t.len() == 0 || is_comment(t) {
        st
    } else {
        match header_text(t) {
            Some(h) => ScanModel {
                done: match st.current {
                    Some(c) => st.done.push(c),
                    None => st.done,
                },
                current: Some(NoteModel { header: h, body_lines: seq![] }),
            },
            None => match st.current {
                Some(c) => ScanModel {
                    done: st.done,
                    current: Some(NoteModel { header: c.header, body_lines: c.body_lines.push(line) }),
                },
                None => st,
            },
        }
    }
}

/// The scan after the given lines.
pub open spec fn scan(lines: Seq<Seq<char>>) -> ScanModel
    decreases lines.len(),
{
    if lines.len() == 0 {
        ScanModel { done: seq![], current: None }
    } else {
        scan_step(scan(lines.drop_last()), lines.last())
    }
}

/// The notes of the given lines, in file order.
pub open spec fn notes_of_lines(lines: Seq<Seq<char>>) -> Seq<NoteModel> {
    let st = scan(lines);
    match st.current {
        Some(c) => st.done.push(c),
        None => st.done,
    }
}

/// The notes of a file's text.
pub open spec fn notes_of_text(text: Seq<char>) -> Seq<NoteModel> {
    notes_of_lines(lines_spec(text))
}

/// The header text of a trimmed line, if it is a header line.
pub fn parse_header(t: &Vec<char>) -> (r: Option<String>)
    ensures
        r matches Some(h) ==> header_text(t@) == Some(h@),
        r is None ==> header_text(t@) is None,
{
    if t.len() >= 3 && t[0] == '#' && t[1] == '#' && is_space(t[2]) {
        let mut j: usize = 2;
        while j < t.len() && is_space(t[j])
            invariant
                2 <= j <= t@.len(),
                skip_space(t@, j as int) == skip_space(t@, 2),
            decreases t@.len() - j,
        {
            j = j + 1;
        }
        if j < t.len() {
            return Some(string_range(t, j, t.len()));
        }
    }
    None
}

/// Whether a trimmed line is an HTML comment and nothing else.
pub fn comment_line(t: &Vec<char>) -> (r: bool)
    ensures
        r == is_comment(t@),
{
    let n = t.len();
    n >= 7 && t[0] == '<' && t[1] == '!' && t[2] == '-' && t[3] == '-' && t[n - 3] == '-' && t[n
        - 2] == '-' && t[n - 1] == '>'
}

/// The notes of the given lines, in order.
pub fn scan_lines(lines: &Vec<String>) -> (r: Vec<NoteFields>)
    ensures
        note_views(r@) == notes_of_lines(views(lines@)),
{
    let ghost ls = views(lines@);
    let mut done: Vec<NoteFields> = Vec::new();
    let mut current: Option<NoteFields> = None;
    let mut i: usize = 0;
    while i < lines.len()
        invariant
            i <= lines@.len(),
            ls == views(lines@),
            note_views(done@) == scan(ls.take(i as int)).done,
            opt_view(current) == scan(ls.take(i as int)).current,
        decreases lines@.len() - i,
    {
        proof {
            assert(ls.take(i + 1).drop_last() =~= ls.take(i as int));
            assert(ls.take(i + 1).last() == lines@[i as int]@);
        }
        let line = &lines[i];
        let t_str = trim(line.as_str());
        let t = chars_of(t_str.as_str());
        if t.len() == 0 || comment_line(&t) {
        } else {
            match parse_header(&t) {
                Some(h) => {
                    match current {
                        Some(c) => {
                            proof {
                                assert(note_views(done@.push(c)) =~= note_views(done@).push(c@));
                            }
                            done.push(c);
                        },
                        None => {},
                    }
                    let body: Vec<String> = Vec::new();
                    assert(views(body@) =~= seq![]);
                    current = Some(NoteFields { header: h, body_lines: body });
                },
                None => {
                    match current {
                        Some(mut c) => {
                            let ghost old_body = c.body_lines@;
                            c.body_lines.push(line.clone());
                            proof {
                                assert(views(c.body_lines@) =~= views(old_body).push(line@));
                            }
                            current = Some(c);
                        },
                        None => {
                            current = None;
                        },
                    }
                },
            }
        }
        i = i + 1;
    }
    proof {
        assert(ls.take(lines@.len() as int) =~= ls);
    }
    match current {
        Some(c) => {
            proof {
                assert(note_views(done@.push(c)) =~= note_views(done@).push(c@));
            }
            done.push(c);
        },
        None => {},
    }
    done
}

/// The notes of a Markdown file's text, in file order.
pub fn parse_md_text(text: &str) -> (r: Vec<NoteFields>)
    ensures
        note_views(r@) == notes_of_text(text@),
{
    let lines = split_lines(text);
    scan_lines(&lines)
}

/// The note lists of several files.
pub open spec fn file_views(ls: Seq<Vec<NoteFields>>) -> Seq<Seq<NoteModel>> {
    ls.map_values(|v: Vec<NoteFields>| note_views(v@))
}

/// The lists, each taken at its first place only.
pub open spec fn distinct_lists(ls: Seq<Seq<NoteModel>>) -> Seq<Seq<NoteModel>>
    decreases ls.len(),
{
    if ls.len() == 0 {
        seq![]
    } else if ls.drop_last().contains(ls.last()) {
        distinct_lists(ls.drop_last())
    } else {
        distinct_lists(ls.drop_last()).push(ls.last())
    }
}

/// The lists one after another.
pub open spec fn concat_all(ls: Seq<Seq<NoteModel>>) -> Seq<NoteModel>
    decreases ls.len(),
{
    if ls.len() == 0 {
        seq![]
    } else {
        concat_all(ls.drop_last()) + ls.last()
    }
}

/// Whether two lists hold equal notes in the same order.
pub fn note_lists_eq(a: &Vec<NoteFields>, b: &Vec<NoteFields>) -> (r: bool)
    ensures
        r == (note_views(a@) == note_views(b@)),
{
    if a.len() != b.len() {
        proof {
            assert(note_views(a@).len() != note_views(b@).len());
        }
        return false;
    }
    let mut i: usize = 0;
    while i < a.len()
        invariant
            a@.len() == b@.len(),
            i <= a@.len(),
            forall|k: int| 0 <= k < i ==> a@[k]@ == b@[k]@,
        decreases a@.len() - i,
    {
        if a[i] != b[i] {
            proof {
                assert(note_views(a@)[i as int] != note_views(b@)[i as int]);
            }
            return false;
        }
        i = i + 1;
    }
    assert(note_views(a@) =~= note_views(b@));
    true
}

/// The notes of several files, in order. The files' note lists are taken
/// as a set: a file whose notes equal those of an earlier file (the same
/// file reached twice, or a copy of it) adds nothing, so no card is made
/// twice from it.
#[verifier::loop_isolation(false)]
pub fn merge_file_notes(files: Vec<Vec<NoteFields>>) -> (r: Vec<NoteFields>)
    ensures
        note_views(r@) == concat_all(distinct_lists(file_views(files@))),
{
    let ghost fv = file_views(files@);
    let mut kept: Vec<Vec<NoteFields>> = Vec::new();
    let mut rest = files;
    let ghost orig = rest@;
    let n = rest.len();
    let mut i: usize = 0;
    while i < n
        invariant
            n == orig.len(),
            i <= n,
            fv == file_views(orig),
            rest@.len() == n - i,
            forall|k: int| 0 <= k < rest@.len() ==> rest@[k] == orig[k + i],
            file_views(kept@) == distinct_lists(fv.take(i as int)),
            forall|x: Seq<NoteModel>| file_views(kept@).contains(x) <==> fv.take(i as int).contains(
                x,
            ),
        decreases n - i,
    {
        let f = rest.remove(0);
        assert(f == orig[i as int]);
        let ghost pre = fv.take(i as int);
        let ghost x = note_views(f@);
        assert(fv.take(i + 1) =~= pre.push(x));
        assert(fv.take(i + 1).drop_last() =~= pre);
        let mut seen = false;
        let mut j: usize = 0;
        while j < kept.len()
            invariant
                j <= kept@.len(),
                seen ==> file_views(kept@).contains(x),
                !seen ==> forall|k: int| 0 <= k < j ==> file_views(kept@)[k] != x,
                x == note_views(f@),
            decreases kept@.len() - j,
        {
            if note_lists_eq(&kept[j as usize], &f) {
                assert(file_views(kept@)[j as int] == x);
                seen = true;
            }
            j = j + 1;
        }
        let ghost pk = file_views(kept@);
        assert(file_views(kept@).contains(x) <==> pre.contains(x));
        if !seen {
            assert(!file_views(kept@).contains(x)) by {
                if file_views(kept@).contains(x) {
                    let k = choose|k: int|
                        0 <= k < file_views(kept@).len() && file_views(kept@)[k] == x;
                    assert(file_views(kept@)[k] != x);
                }
            }
        }
        assert(seen == pre.contains(x));
        assert(forall|y: Seq<NoteModel>| pk.contains(y) <==> pre.contains(y));
        if !seen {
            let ghost kv = kept@;
            kept.push(f);
            assert(kept@ == kv.push(f));
            assert(file_views(kept@) =~= pk.push(x));
        }
        let ghost nxt = fv.take(i + 1);
        assert forall|y: Seq<NoteModel>| file_views(kept@).contains(y) <==> nxt.contains(
            y,
        ) by {
            if nxt.contains(y) {
                let k = choose|k: int| 0 <= k < nxt.len() && nxt[k] == y;
                if k < i {
                    assert(pre[k] == y);
                    assert(pre.contains(y));
                    assert(pk.contains(y));
                    let m = choose|m: int| 0 <= m < pk.len() && pk[m] == y;
                    assert(file_views(kept@)[m] == y);
                } else if !seen {
                    assert(file_views(kept@)[pk.len() as int] == y);
                } else {
                    assert(y == x);
                    assert(pk.contains(y));
                    let m = choose|m: int| 0 <= m < pk.len() && pk[m] == y;
                    assert(file_views(kept@)[m] == y);
                }
            }
            if file_views(kept@).contains(y) {
                let m = choose|m: int|
                    0 <= m < file_views(kept@).len() && file_views(kept@)[m] == y;
                if m < pk.len() {
                    assert(pk[m] == y);
                    assert(pk.contains(y));
                    assert(pre.contains(y));
                    let k = choose|k: int| 0 <= k < pre.len() && pre[k] == y;
                    assert(nxt[k] == y);
                } else {
                    assert(nxt[i as int] == y);
                }
            }
        }
        i = i + 1;
    }
    assert(fv.take(n as int) =~= fv);
    let ghost dl = file_views(kept@);
    let mut out: Vec<NoteFields> = Vec::new();
    let mut idx: usize = 0;
    let m = kept.len();
    let ghost korig = kept@;
    while idx < m
        invariant
            m == korig.len(),
            idx <= m,
            dl == file_views(korig),
            kept@.len() == m - idx,
            forall|k: int| 0 <= k < kept@.len() ==> kept@[k] == korig[k + idx],
            note_views(out@) == concat_all(dl.take(idx as int)),
        decreases m - idx,
    {
        let mut list = kept.remove(0);
        assert(list == korig[idx as int]);
        assert(dl.take(idx + 1).drop_last() =~= dl.take(idx as int));
        let ghost start = note_views(out@);
        let ghost lv = note_views(list@);
        let mut moved: usize = 0;
        let total = list.len();
        while list.len() > 0
            invariant
                list@.len() + moved == total,
                total == lv.len(),
                forall|k: int| 0 <= k < list@.len() ==> list@[k]@ == lv[k + moved],
                note_views(out@) == start + lv.take(moved as int),
            decreases list@.len(),
        {
            let ghost pl = list@;
            let note = list.remove(0);
            assert(note@ == lv[moved as int]);
            let ghost po = out@;
            out.push(note);
            assert(out@ == po.push(note));
            assert(note_views(out@) =~= note_views(po).push(note@));
            assert(lv.take(moved + 1) =~= lv.take(moved as int).push(lv[moved as int]));
            moved = moved + 1;
            assert forall|k: int| 0 <= k < list@.len() implies list@[k]@ == lv[k + moved] by {
                assert(list@[k] == pl[k + 1]);
            }
        }
        assert(lv.take(total as int) =~= lv);
        idx = idx + 1;
    }
    assert(dl.take(m as int) =~= dl);
    out
}

} // verus!
