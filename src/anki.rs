//! From notes to Anki notes and decks: each note becomes a cloze,
//! type-in-the-answer or basic card, and `genanki_rs` builds the package.
use vstd::prelude::*;
use crate::cloze::{cloze_count, numbered_clozes, process_clozes};
use crate::config::{is_prefix, starts_with, DeckConfig};
use crate::notes::NoteFields;
use crate::text::{chars_of, views};

verus! {

#[verifier::external_type_specification]
#[verifier::external_body]
pub struct ExNote(genanki_rs::Note);

#[verifier::external_type_specification]
#[verifier::external_body]
pub struct ExModel(genanki_rs::Model);

#[verifier::external_type_specification]
#[verifier::external_body]
pub struct ExDeck(genanki_rs::Deck);

#[verifier::external_type_specification]
#[verifier::external_body]
pub struct ExAnkiError(genanki_rs::Error);

/// The fields that a genanki note holds, in order.
pub uninterp spec fn note_fields(n: genanki_rs::Note) -> Seq<Seq<char>>;

/// The id of the model of a genanki note.
pub uninterp spec fn note_model_id(n: genanki_rs::Note) -> i64;

/// The id of a genanki deck.
pub uninterp spec fn deck_id(d: genanki_rs::Deck) -> i64;

/// The name of a genanki deck.
pub uninterp spec fn deck_name(d: genanki_rs::Deck) -> Seq<char>;

/// The description of a genanki deck.
pub uninterp spec fn deck_desc(d: genanki_rs::Deck) -> Seq<char>;

/// How many notes a genanki deck holds.
pub uninterp spec fn deck_len(d: genanki_rs::Deck) -> nat;

/// The id of `genanki_rs::basic_model`.
pub const BASIC_MODEL_ID: i64 = 1559383000;

/// The id of `genanki_rs::basic_type_in_the_answer_model`.
pub const TYPE_IN_MODEL_ID: i64 = 1305534440;

/// The id of `genanki_rs::cloze_model`.
pub const CLOZE_MODEL_ID: i64 = 1122529321;

/// Relies on `genanki_rs::Note::new` with `genanki_rs::basic_model`: the
/// note keeps the model and the two fields as given. The model's templates
/// are fixed and parse, so its card requirements are found and no error
/// comes back; each template reads only the two fields.
#[verifier::external_body]
fn basic_note(front: &str, back: &str) -> (r: Result<genanki_rs::Note, genanki_rs::Error>)
    ensures
        r is Ok,
        r matches Ok(n) ==> note_fields(n) == seq![front@, back@] && note_model_id(n)
            == BASIC_MODEL_ID,
{
    genanki_rs::Note::new(genanki_rs::basic_model(), vec![front, back])
}

/// Relies on `genanki_rs::Note::new` with
/// `genanki_rs::basic_type_in_the_answer_model`: as for the basic model.
#[verifier::external_body]
fn type_in_note(front: &str, back: &str) -> (r: Result<genanki_rs::Note, genanki_rs::Error>)
    ensures
        r is Ok,
        r matches Ok(n) ==> note_fields(n) == seq![front@, back@] && note_model_id(n)
            == TYPE_IN_MODEL_ID,
{
    genanki_rs::Note::new(genanki_rs::basic_type_in_the_answer_model(), vec![front, back])
}

/// Relies on `genanki_rs::Note::new` with `genanki_rs::cloze_model`: the
/// note keeps the model and its one field, `Text`; the cloze path returns no
/// error. genanki reads the number of each `{{c<digits>::` of the text with
/// `i64::from_str(..).expect(..)`, where its digits are Unicode digits, so
/// texts whose numbers might not parse are left out.
#[verifier::external_body]
fn cloze_note(text: &str) -> (r: Result<genanki_rs::Note, genanki_rs::Error>)
    requires
        cloze_numbers_fit(text@),
    ensures
        r is Ok,
        r matches Ok(n) ==> note_fields(n) == seq![text@] && note_model_id(n) == CLOZE_MODEL_ID,
{
    genanki_rs::Note::new(genanki_rs::cloze_model(), vec![text])
}

/// Relies on `genanki_rs::Deck::new`: an empty deck with this id, name and
/// description.
pub assume_specification[ genanki_rs::Deck::new ](
    id: i64,
    name: &str,
    description: &str,
) -> (r: genanki_rs::Deck)
    ensures
        deck_id(r) == id,
        deck_name(r) == name@,
        deck_desc(r) == description@,
        deck_len(r) == 0,
;

/// Relies on `genanki_rs::Deck::add_note`: the note joins the deck, which
/// keeps its id, name and description.
pub assume_specification[ genanki_rs::Deck::add_note ](
    deck: &mut genanki_rs::Deck,
    note: genanki_rs::Note,
)
    ensures
        deck_len(*final(deck)) == deck_len(*old(deck)) + 1,
        deck_id(*final(deck)) == deck_id(*old(deck)),
        deck_name(*final(deck)) == deck_name(*old(deck)),
        deck_desc(*final(deck)) == deck_desc(*old(deck)),
;

/// The end of the run of ASCII digits that starts at `i`.
pub open spec fn digit_run_end(t: Seq<char>, i: int) -> int
    decreases t.len() - i,
{
    if 0 <= i < t.len() && '0' <= t[i] && t[i] <= '9' {
        digit_run_end(t, i + 1)
    } else {
        i
    }
}

/// Whether a `{{c` at `p` is followed by a number that might not fit an
/// `i64`: a non-ASCII character right after its ASCII digits, or 19 or more
/// ASCII digits followed by `::`.
pub open spec fn unfit_number_at(t: Seq<char>, p: int) -> bool {
    &&& 0 <= p
    &&& p + 3 <= t.len()
    &&& t[p] == '{'
    &&& t[p + 1] == '{'
    &&& t[p + 2] == 'c'
    &&& {
        let e = digit_run_end(t, p + 3);
        (e < t.len() && (t[e] as u32) >= 128) || (e - (p + 3) >= 19 && e + 1 < t.len() && t[e]
            == ':' && t[e + 1] == ':')
    }
}

/// Whether every numbered cloze of the text has a number that fits an `i64`.
pub open spec fn cloze_numbers_fit(t: Seq<char>) -> bool {
    forall|p: int| !#[trigger] unfit_number_at(t, p)
}

/// Whether every numbered cloze of the text has a number that fits an `i64`.
pub fn check_cloze_numbers(text: &str) -> (r: bool)
    ensures
        r == cloze_numbers_fit(text@),
{
    let t = chars_of(text);
    let mut p: usize = 0;
    while p < t.len()
        invariant
            t@ == text@,
            p <= t@.len(),
            forall|q: int| 0 <= q < p ==> !#[trigger] unfit_number_at(t@, q),
        decreases t@.len() - p,
    {
        if t.len() >= 3 && p <= t.len() - 3 && t[p] == '{' && t[p + 1] == '{' && t[p + 2] == 'c' {
            let mut e: usize = p + 3;
            while e < t.len() && '0' <= t[e] && t[e] <= '9'
                invariant
                    p + 3 <= e <= t@.len(),
                    digit_run_end(t@, e as int) == digit_run_end(t@, p + 3),
                decreases t@.len() - e,
            {
                e = e + 1;
            }
            if (e < t.len() && (t[e] as u32) >= 128) || (e - (p + 3) >= 19 && e < t.len() - 1
                && t[e] == ':' && t[e + 1] == ':') {
                assert(unfit_number_at(t@, p as int));
                return false;
            }
        }
        p = p + 1;
    }
    assert forall|q: int| !#[trigger] unfit_number_at(t@, q) by {
        if 0 <= q < p {
        }
    }
    true
}

/// What `markdown::to_html` returns for a text: it depends on the text alone.
pub uninterp spec fn html_of(s: Seq<char>) -> Seq<char>;

/// Relies on `markdown::to_html`: the HTML of a CommonMark text (with the
/// default options it cannot fail).
pub assume_specification[ markdown::to_html ](value: &str) -> (r: String)
    ensures
        r@ == html_of(value@),
;

/// Why a note or a deck could not be built.
#[derive(Debug)]
pub enum DeckError {
    /// `genanki_rs` refused the fields of a note.
    Note(genanki_rs::Error),
    /// A cloze card's text holds a `{{c<number>::` whose number might not
    /// fit an `i64`, on which genanki would panic.
    ClozeNumber,
}

/// The three kinds of card a note can become.
#[derive(Debug, Clone, Copy, PartialEq, Eq, Structural)]
pub enum NoteKind {
    /// The header is the front; the body, as written, is typed in as the answer.
    TypeIn,
    /// One field: the header and body HTML, with the clozes numbered.
    Cloze,
    /// The header HTML is the front and the body HTML the back.
    Basic,
}

/// The model and the fields of the card that a note becomes.
#[derive(Debug)]
pub struct NoteContent {
    pub kind: NoteKind,
    pub fields: Vec<String>,
}

/// Whether the header starts with one of the prefixes.
pub open spec fn has_type_in_prefix(header: Seq<char>, prefixes: Seq<Seq<char>>) -> bool {
    exists|k: int| 0 <= k < prefixes.len() && is_prefix(#[trigger] prefixes[k], header)
}

/// The card kind and fields of a note with the given header and body text,
/// where `header_html` and `body_html` are their HTML: a header with a
/// type-in prefix gives a type-in card; else the HTML of both, joined by a
/// line break, gives a cloze card where it holds a cloze; else a basic card.
pub open spec fn content_spec(
    header: Seq<char>,
    body: Seq<char>,
    prefixes: Seq<Seq<char>>,
    header_html: Seq<char>,
    body_html: Seq<char>,
) -> (NoteKind, Seq<Seq<char>>) {
    let full = header_html + seq!['\n'] + body_html;
    if has_type_in_prefix(header, prefixes) {
        (NoteKind::TypeIn, seq![header_html, body])
    } else if cloze_count(full) > 0 {
        (NoteKind::Cloze, seq![numbered_clozes(full)])
    } else {
        (NoteKind::Basic, seq![header_html, body_html])
    }
}

/// The lines joined by `'\n'`.
pub open spec fn join_lines(ls: Seq<Seq<char>>) -> Seq<char>
    decreases ls.len(),
{
    if ls.len() == 0 {
        seq![]
    } else if ls.len() == 1 {
        ls[0]
    } else {
        join_lines(ls.drop_last()) + seq!['\n'] + ls.last()
    }
}

/// The lines joined by `'\n'`.
pub fn join_lines_exec(lines: &Vec<String>) -> (r: String)
    ensures
        r@ == join_lines(views(lines@)),
{
    let mut out = String::new();
    let mut i: usize = 0;
    while i < lines.len()
        invariant
            i <= lines@.len(),
            out@ == join_lines(views(lines@).take(i as int)),
        decreases lines@.len() - i,
    {
        proof {
            assert(views(lines@).take(i + 1).drop_last() =~= views(lines@).take(i as int));
        }
        if i > 0 {
            out.append("\n");
            proof {
                reveal_strlit("\n");
            }
        } else {
            assert(views(lines@).take(0) =~= seq![]);
        }
        out.append(lines[i].as_str());
        i = i + 1;
    }
    assert(views(lines@).take(lines@.len() as int) =~= views(lines@));
    out
}

/// Whether the header starts with one of the prefixes.
pub fn type_in_header(header: &str, prefixes: &Vec<String>) -> (r: bool)
    ensures
        r == has_type_in_prefix(header@, views(prefixes@)),
{
    let mut i: usize = 0;
    while i < prefixes.len()
        invariant
            i <= prefixes@.len(),
            forall|k: int| 0 <= k < i ==> !is_prefix(#[trigger] views(prefixes@)[k], header@),
        decreases prefixes@.len() - i,
    {
        if starts_with(header, prefixes[i].as_str()) {
            assert(is_prefix(views(prefixes@)[i as int], header@));
            return true;
        }
        i = i + 1;
    }
    false
}

/// The card that a note becomes, given the HTML of its header and body.
pub fn classify_note(
    header: &str,
    body: &str,
    prefixes: &Vec<String>,
    header_html: &str,
    body_html: &str,
) -> (r: NoteContent)
    ensures
        (r.kind, views(r.fields@)) == content_spec(
            header@,
            body@,
            views(prefixes@),
            header_html@,
            body_html@,
        ),
{
    let mut fields: Vec<String> = Vec::new();
    if type_in_header(header, prefixes) {
        fields.push(header_html.to_owned());
        fields.push(body.to_owned());
        assert(views(fields@) =~= seq![header_html@, body@]);
        return NoteContent { kind: NoteKind::TypeIn, fields };
    }
    let mut full = header_html.to_owned();
    full.append("\n");
    full.append(body_html);
    proof {
        reveal_strlit("\n");
    }
    assert(full@ =~= header_html@ + seq!['\n'] + body_html@);
    match process_clozes(full.as_str()) {
        Some(c) => {
            fields.push(c);
            assert(views(fields@) =~= seq![numbered_clozes(full@)]);
            NoteContent { kind: NoteKind::Cloze, fields }
        },
        None => {
            fields.push(header_html.to_owned());
            fields.push(body_html.to_owned());
            assert(views(fields@) =~= seq![header_html@, body_html@]);
            NoteContent { kind: NoteKind::Basic, fields }
        },
    }
}

/// The Markdown of a note's header line: `## ` and the header text.
pub open spec fn header_markdown(header: Seq<char>) -> Seq<char> {
    seq!['#', '#', ' '] + header
}

impl NoteFields {
    /// The card that this note becomes in the given deck.
    pub fn note_content(&self, deck_config: &DeckConfig) -> (r: NoteContent)
        ensures
            ({
                let body = join_lines(views(self.body_lines@));
                (r.kind, views(r.fields@)) == content_spec(
                    self.header@,
                    body,
                    views(deck_config.type_in_prefixes@),
                    html_of(header_markdown(self.header@)),
                    html_of(body),
                )
            }),
    {
        let body = join_lines_exec(&self.body_lines);
        let mut header_md = String::from_str("## ");
        header_md.append(self.header.as_str());
        proof {
            reveal_strlit("## ");
        }
        assert(header_md@ =~= header_markdown(self.header@));
        let header_html = markdown::to_html(header_md.as_str());
        let body_html = markdown::to_html(body.as_str());
        classify_note(
            self.header.as_str(),
            body.as_str(),
            &deck_config.type_in_prefixes,
            header_html.as_str(),
            body_html.as_str(),
        )
    }

    /// The Anki note that this note becomes in the given deck: the model of
    /// its kind, with the fields of `note_content`. Refused only for a cloze
    /// card whose text holds a cloze number that might not fit an `i64`.
    pub fn to_note(&self, deck_config: &DeckConfig) -> (r: Result<genanki_rs::Note, DeckError>)
        ensures
            ({
                let c = note_card(self@, views(deck_config.type_in_prefixes@));
                &&& r is Ok <==> card_buildable(c)
                &&& r matches Ok(n) ==> note_fields(n) == c.1 && note_model_id(n) == model_id_of(c.0)
                &&& r matches Err(e) ==> e is ClozeNumber
            }),
    {
        let content = self.note_content(deck_config);
        proof {
            let c = note_card(self@, views(deck_config.type_in_prefixes@));
            assert(views(content.fields@).len() == content.fields@.len());
            assert(content.kind == c.0 && views(content.fields@) == c.1);
            if content.kind is Cloze {
                assert(content.fields@.len() == 1);
            } else {
                assert(content.fields@.len() == 2);
            }
        }
        let res = match content.kind {
            NoteKind::TypeIn => type_in_note(content.fields[0].as_str(), content.fields[1].as_str()),
            NoteKind::Basic => basic_note(content.fields[0].as_str(), content.fields[1].as_str()),
            NoteKind::Cloze => {
                if !check_cloze_numbers(content.fields[0].as_str()) {
                    return Err(DeckError::ClozeNumber);
                }
                cloze_note(content.fields[0].as_str())
            },
        };
        proof {
            if content.kind is Cloze {
                assert(views(content.fields@) =~= seq![content.fields@[0]@]);
            } else {
                assert(views(content.fields@) =~= seq![content.fields@[0]@, content.fields@[1]@]);
            }
        }
        match res {
            Ok(n) => Ok(n),
            Err(e) => Err(DeckError::Note(e)),
        }
    }
}

/// The kind and fields of the card that a note becomes in a deck with the
/// given type-in prefixes.
pub open spec fn note_card(n: crate::notes::NoteModel, prefixes: Seq<Seq<char>>) -> (
    NoteKind,
    Seq<Seq<char>>,
) {
    let body = join_lines(n.body_lines);
    content_spec(n.header, body, prefixes, html_of(header_markdown(n.header)), html_of(body))
}

/// Whether genanki can take the card: every card but a cloze card whose
/// cloze numbers might not fit an `i64`.
pub open spec fn card_buildable(c: (NoteKind, Seq<Seq<char>>)) -> bool {
    c.0 != NoteKind::Cloze || cloze_numbers_fit(c.1[0])
}

/// The id of the genanki model of each kind of card.
pub open spec fn model_id_of(k: NoteKind) -> i64 {
    match k {
        NoteKind::TypeIn => TYPE_IN_MODEL_ID,
        NoteKind::Cloze => CLOZE_MODEL_ID,
        NoteKind::Basic => BASIC_MODEL_ID,
    }
}

/// The description of a deck definition, empty where none is given.
pub open spec fn desc_or_empty(d: crate::config::DeckModel) -> Seq<char> {
    match d.description {
        Some(x) => x,
        None => Seq::<char>::empty(),
    }
}

impl DeckConfig {
    /// The description of the deck, empty where none is given.
    pub fn deck_description(&self) -> (r: String)
        ensures
            r@ == desc_or_empty(self@),
    {
        match &self.description {
            Some(d) => d.clone(),
            None => String::new(),
        }
    }

    /// An empty Anki deck with this deck's id, name and description (empty
    /// where none is given).
    pub fn as_deck(&self) -> (r: genanki_rs::Deck)
        ensures
            deck_id(r) == self.id,
            deck_name(r) == self.name@,
            deck_desc(r) == desc_or_empty(self@),
            deck_len(r) == 0,
    {
        let desc = self.deck_description();
        genanki_rs::Deck::new(self.id, self.name.as_str(), desc.as_str())
    }
}

impl From<DeckConfig> for genanki_rs::Deck {
    /// An empty Anki deck with the id, name and description of the deck, as
    /// `as_deck` makes it.
    fn from(val: DeckConfig) -> (r: genanki_rs::Deck)
        ensures
            deck_id(r) == val.id,
            deck_name(r) == val.name@,
            deck_desc(r) == desc_or_empty(val@),
            deck_len(r) == 0,
    {
        val.as_deck()
    }
}

impl vstd::std_specs::convert::FromSpecImpl<DeckConfig> for genanki_rs::Deck {
    open spec fn obeys_from_spec() -> bool {
        false
    }

    open spec fn from_spec(v: DeckConfig) -> genanki_rs::Deck {
        arbitrary()
    }
}

/// The deck described by `deck_config`, holding one Anki note for each note,
/// in order; refused where a note's card cannot be built.
pub fn build_deck(deck_config: &DeckConfig, notes: &Vec<NoteFields>) -> (r: Result<
    genanki_rs::Deck,
    DeckError,
>)
    ensures
        r is Ok <==> forall|i: int|
            0 <= i < notes@.len() ==> card_buildable(
                #[trigger] note_card(notes@[i]@, views(deck_config.type_in_prefixes@)),
            ),
        r matches Err(e) ==> e is ClozeNumber,
        r matches Ok(d) ==> deck_len(d) == notes@.len() && deck_id(d) == deck_config.id
            && deck_name(d) == deck_config.name@ && deck_desc(d) == desc_or_empty(deck_config@),
{
    let ghost pv = views(deck_config.type_in_prefixes@);
    let mut built: Vec<genanki_rs::Note> = Vec::new();
    let mut i: usize = 0;
    while i < notes.len()
        invariant
            i <= notes@.len(),
            built@.len() == i,
            pv == views(deck_config.type_in_prefixes@),
            forall|k: int| 0 <= k < i ==> card_buildable(#[trigger] note_card(notes@[k]@, pv)),
        decreases notes@.len() - i,
    {
        match notes[i].to_note(deck_config) {
            Ok(n) => built.push(n),
            Err(e) => return Err(e),
        }
        i = i + 1;
    }
    let mut deck = deck_config.as_deck();
    let n = built.len();
    while built.len() > 0
        invariant
            deck_len(deck) + built@.len() == n,
            deck_id(deck) == deck_config.id,
            deck_name(deck) == deck_config.name@,
            deck_desc(deck) == desc_or_empty(deck_config@),
        decreases built@.len(),
    {
        let note = built.remove(0);
        deck.add_note(note);
    }
    Ok(deck)
}

} // verus!
