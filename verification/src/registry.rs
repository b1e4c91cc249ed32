//! What `state.db` keeps: the sessions that were open, how often hosts were
//! used, and notes about hosts. The program around runs the statements;
//! which ones are needed, and what a note is, is decided here.

use vstd::prelude::*;

use crate::text;

verus! {

/// The schema that this NativeTerm writes.
pub const SCHEMA_VERSION: i64 = 3;

/// How often a host was opened, and when last.
#[derive(Clone, Debug, PartialEq, Eq)]
pub struct Usage {
    pub alias: String,
    pub count: i64,
    pub last_opened: i64,
}

/// A step that brings `state.db` up to date.
#[derive(Clone, Copy, Debug, PartialEq, Eq, Structural)]
pub enum Step {
    /// The tables of sessions and usage.
    Create,
    /// Port forwards, and the settings.
    Settings,
    /// Locked sessions.
    Locks,
}

/// The version that a step leads to.
pub open spec fn leads_to(step: Step) -> i64 {
    match step {
        Step::Create => 1,
        Step::Settings => 2,
        Step::Locks => 3,
    }
}

/// The steps that a `state.db` of this version needs, in order; none where
/// it is from a newer NativeTerm.
pub fn upgrade(version: i64) -> (r: Option<Vec<Step>>)
    ensures
        version > SCHEMA_VERSION <==> r is None,
        r matches Some(steps) ==> {
            &&& forall|i: int| 0 <= i < steps@.len() ==> leads_to(#[trigger] steps@[i]) > version
            &&& forall|i: int, j: int| 0 <= i < j < steps@.len() ==> leads_to(steps@[i]) < leads_to(steps@[j])
            &&& forall|step: Step| #[trigger] leads_to(step) > version ==> steps@.contains(step)
        },
{
    if version > SCHEMA_VERSION {
        return None;
    }
    let mut steps: Vec<Step> = Vec::new();
    if version < 1 {
        steps.push(Step::Create);
    }
    if version < 2 {
        steps.push(Step::Settings);
    }
    if version < 3 {
        steps.push(Step::Locks);
    }
    proof {
        assert forall|step: Step| #[trigger] leads_to(step) > version implies steps@.contains(step) by {
            let n = steps@.len() as int;
            match step {
                Step::Create => {
                    assert(steps@[0] == step);
                },
                Step::Settings => {
                    assert(steps@[n - 2] == step);
                },
                Step::Locks => {
                    assert(steps@[n - 1] == step);
                },
            }
        }
    }
    Some(steps)
}

/// A session closed before this moment (seconds) can't be restored any
/// more.
pub fn oldest_restorable(now: i64, max_age: i64) -> (r: i64)
    requires
        0 <= now,
        0 <= max_age,
    ensures
        r == now - max_age,
{
    now - max_age
}

/// What was written about a host.
#[derive(Clone, Debug, PartialEq, Eq)]
pub struct Note {
    pub text: String,
    pub tags: Vec<String>,
    /// Seconds since the epoch.
    pub updated_at: i64,
}

/// What a note says.
pub struct NoteView {
    pub text: Seq<char>,
    pub tags: Seq<Seq<char>>,
    pub updated_at: int,
}

impl View for Note {
    type V = NoteView;

    open spec fn view(&self) -> NoteView {
        NoteView { text: self.text@, tags: text::texts(self.tags@), updated_at: self.updated_at as int }
    }
}

/// What separates tags: a comma, a Chinese comma, a semicolon.
pub open spec fn is_tag_end(c: char) -> bool {
    c == ',' || c == '，' || c == ';'
}

/// The parts of `s` between separators.
pub open spec fn tag_parts(s: Seq<char>) -> Seq<Seq<char>>
    decreases s.len(),
{
    if s.len() == 0 {
        seq![s]
    } else {
        let before = tag_parts(s.drop_last());
        if is_tag_end(s.last()) {
            before.push(Seq::empty())
        } else {
            before.drop_last().push(before.last().push(s.last()))
        }
    }
}

/// The tags among the parts: trimmed, without empties and repeats.
pub open spec fn tags_among(parts: Seq<Seq<char>>) -> Seq<Seq<char>>
    decreases parts.len(),
{
    if parts.len() == 0 {
        Seq::empty()
    } else {
        let before = tags_among(parts.drop_last());
        let tag = text::trimmed(parts.last());
        if tag.len() == 0 || before.contains(tag) {
            before
        } else {
            before.push(tag)
        }
    }
}

/// The tags that someone typed.
pub open spec fn typed_tags(s: Seq<char>) -> Seq<Seq<char>> {
    tags_among(tag_parts(s))
}

/// Tags on one line, as they are typed.
pub open spec fn tags_line(tags: Seq<Seq<char>>) -> Seq<char> {
    crate::control::comma_list(tags)
}

fn tag_pieces(s: &[char]) -> (r: Vec<Vec<char>>)
    ensures
        text::deep(r@) == tag_parts(s@),
{
    let mut r: Vec<Vec<char>> = Vec::new();
    let mut piece: Vec<char> = Vec::new();
    let mut i: usize = 0;
    proof {
        assert(s@.take(0) =~= Seq::empty());
        assert(text::deep(r@).push(piece@) =~= tag_parts(s@.take(0)));
    }
    while i < s.len()
        invariant
            i <= s@.len(),
            text::deep(r@).push(piece@) == tag_parts(s@.take(i as int)),
        decreases s@.len() - i,
    {
        let ghost was = text::deep(r@);
        let ghost part = piece@;
        let ghost before = tag_parts(s@.take(i as int));
        proof {
            assert(s@.take(i + 1).drop_last() =~= s@.take(i as int));
            assert(s@.take(i + 1).last() == s@[i as int]);
            assert(before.drop_last() =~= was);
            assert(before.last() == part);
        }
        let c = s[i];
        if c == ',' || c == '，' || c == ';' {
            r.push(piece);
            piece = Vec::new();
            proof {
                assert(text::deep(r@) =~= was.push(part));
                assert(piece@ =~= Seq::empty());
            }
        } else {
            piece.push(c);
        }
        i += 1;
    }
    let ghost was = text::deep(r@);
    let ghost part = piece@;
    r.push(piece);
    proof {
        assert(text::deep(r@) =~= was.push(part));
        assert(s@.take(i as int) =~= s@);
    }
    r
}

impl Note {
    /// Nothing is written: a note that was cleared.
    pub open spec fn cleared(self) -> bool {
        self.text@.len() == 0 && self.tags@.len() == 0
    }

    pub fn is_empty(&self) -> (r: bool)
        ensures
            r == self.cleared(),
    {
        self.text.as_str().is_empty() && self.tags.len() == 0
    }

    /// The same note.
    pub fn copy(&self) -> (r: Note)
        ensures
            r@ == self@,
    {
        Note { text: self.text.clone(), tags: text::copy_texts(&self.tags), updated_at: self.updated_at }
    }

    /// Whether both say the same, and were written at the same time.
    pub fn same(&self, other: &Note) -> (r: bool)
        ensures
            r == (self@ == other@),
    {
        self.updated_at == other.updated_at && text::same(&self.text, &other.text) && text::same_texts(
            &self.tags,
            &other.tags,
        )
    }

    /// The tags in what someone typed: separated by commas (Chinese ones
    /// too) or semicolons, without empties and repeats.
    pub fn tags_from(typed: &str) -> (r: Vec<String>)
        ensures
            text::texts(r@) == typed_tags(typed@),
    {
        let chars = text::chars_of(typed);
        let pieces = tag_pieces(&chars);
        let ghost all = tag_parts(typed@);
        let mut r: Vec<String> = Vec::new();
        let mut i: usize = 0;
        proof {
            assert(text::deep(pieces@).len() == pieces@.len());
            assert(all.take(0) =~= Seq::empty());
            assert(text::texts(r@) =~= Seq::empty());
        }
        while i < pieces.len()
            invariant
                i <= pieces@.len(),
                all == text::deep(pieces@),
                all.len() == pieces@.len(),
                text::texts(r@) == tags_among(all.take(i as int)),
            decreases pieces@.len() - i,
        {
            let ghost was = text::texts(r@);
            proof {
                assert(all.take(i + 1).drop_last() =~= all.take(i as int));
                assert(all.take(i + 1).last() == pieces@[i as int]@);
            }
            let tag = text::trim(&pieces[i]);
            if tag.len() > 0 {
                let tag = text::string_of(&tag);
                if !text::contains_text(&r, &tag) {
                    let ghost named = tag@;
                    r.push(tag);
                    proof {
                        assert(text::texts(r@) =~= was.push(named));
                    }
                }
            }
            i += 1;
        }
        proof {
            assert(all.take(i as int) =~= all);
        }
        r
    }

    /// The tags on one line, as they are typed.
    pub fn tag_line(&self) -> (r: String)
        ensures
            r@ == tags_line(text::texts(self.tags@)),
    {
        let chars = crate::control::comma_chars(&self.tags);
        text::string_of(&chars)
    }
}

/// No tag is empty, none has white space around it, and none is there
/// twice.
pub proof fn law_tags_are_clean(s: Seq<char>)
    ensures
        typed_tags(s).no_duplicates(),
        forall|i: int| 0 <= i < typed_tags(s).len() ==> (#[trigger] typed_tags(s)[i]).len() > 0,
        forall|i: int|
            0 <= i < typed_tags(s).len() ==> text::trimmed(#[trigger] typed_tags(s)[i]) == typed_tags(s)[i],
{
    lemma_tags_among(tag_parts(s));
}

proof fn lemma_trimmed_twice(s: Seq<char>)
    ensures
        text::trimmed(text::trimmed(s)) == text::trimmed(s),
    decreases s.len(),
{
    if s.len() > 0 {
        lemma_trimmed_twice(s.skip(1));
        lemma_trimmed_twice(s.drop_last());
    }
}

proof fn lemma_tags_among(parts: Seq<Seq<char>>)
    ensures
        tags_among(parts).no_duplicates(),
        forall|i: int| 0 <= i < tags_among(parts).len() ==> (#[trigger] tags_among(parts)[i]).len() > 0,
        forall|i: int|
            0 <= i < tags_among(parts).len() ==> text::trimmed(#[trigger] tags_among(parts)[i]) == tags_among(parts)[i],
    decreases parts.len(),
{
    if parts.len() > 0 {
        lemma_tags_among(parts.drop_last());
        lemma_trimmed_twice(parts.last());
    }
}

/// A database is brought up one version at a time.
pub proof fn law_versions(step: Step)
    ensures
        leads_to(Step::Create) == 1 && leads_to(Step::Settings) == 2 && leads_to(Step::Locks) == 3,
        1 <= leads_to(step) <= SCHEMA_VERSION,
        SCHEMA_VERSION == 3,
{
}

/// Tags are taken apart at commas, of either script, and semicolons; each
/// counts once, without white space around it, and nothing is none.
pub proof fn law_tags(s: Seq<char>, c: char, parts: Seq<Seq<char>>, p: Seq<char>)
    ensures
        is_tag_end(',') && is_tag_end('，') && is_tag_end(';'),
        is_tag_end(c) ==> c == ',' || c == '，' || c == ';',
        tag_parts(Seq::empty()).len() == 1 && tag_parts(Seq::empty())[0].len() == 0,
        c == ',' || c == '，' || c == ';' ==> tag_parts(s.push(c)) == tag_parts(s).push(Seq::empty()),
        c != ',' && c != '，' && c != ';' ==> tag_parts(s.push(c)) == tag_parts(s).drop_last().push(tag_parts(s).last().push(c)),
        tags_among(Seq::empty()) == Seq::<Seq<char>>::empty(),
        text::trimmed(p).len() == 0 || tags_among(parts).contains(text::trimmed(p)) ==> tags_among(parts.push(p)) == tags_among(parts),
        text::trimmed(p).len() > 0 && !tags_among(parts).contains(text::trimmed(p)) ==> tags_among(parts.push(p)) == tags_among(
            parts,
        ).push(text::trimmed(p)),
        typed_tags(s) == tags_among(tag_parts(s)),
{
    assert(s.push(c).drop_last() =~= s);
    assert(parts.push(p).drop_last() =~= parts);
}

/// Tags are shown with commas between them; a note without words and tags
/// is a cleared one.
pub proof fn law_tag_lines(tags: Seq<Seq<char>>, n: Note)
    ensures
        tags_line(tags) == text::joined_by(tags, ", "@),
        n.cleared() <==> n.text@.len() == 0 && n.tags@.len() == 0,
{
    crate::control::law_recorded_text(Seq::empty(), 'a', Seq::empty(), Seq::empty(), tags);
}

} // verus!
