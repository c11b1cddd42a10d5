//! Rendering of the levels above the senses: entry, lexical entry, headword, lookup.

use crate::display::display_unstyled;
use crate::display::keeps_buffer;
use crate::display::lemma_list_keeps_buffer;
use crate::display::lemma_list_renders_its_items;
use crate::display::lemma_prefix_chain;
use crate::display::lemma_seq_keeps_buffer;
use crate::display::lemma_seq_text_reads_own_ink;
use crate::display::lemma_unstyled_list;
use crate::display::sense::lemma_sense_keeps_buffer;
use crate::display::seq_html_after;
use crate::display::seq_text_after;
use crate::display::Display;
use crate::models::bare_entries;
use crate::models::consistent_pronunciation;
use crate::models::has_consistent_pronunciation;
use crate::models::is_empty_entries;
use crate::models::items;
use crate::models::Entry;
use crate::models::HeadwordEntry;
use crate::models::LexicalEntry;
use crate::models::Pronunciation;
use crate::models::RetrieveEntry;
use crate::style::italic_as;
use crate::style::push_italic;
use crate::style::Ink;
use crate::text::first_line_has_slash;
use crate::text::html_head_has_slash;
use crate::text::push_char;
use crate::text::slash_in_first_line;
use crate::text::slash_in_html_head;
use vstd::prelude::*;

verus! {

/// The buffer after the entry was rendered as text onto `buf`: the
/// pronunciations, unless a `/` already stands in the first line of `buf`; the
/// variant forms; a line feed; the senses.
///
/// The look into `buf` is a guess at whether the headword line shows a
/// pronunciation. It is a fragile one: any `/` in the first line, whatever wrote
/// it, keeps the pronunciations of this entry from being written.
pub open spec fn entry_text_after(entry: Entry, buf: Seq<char>, ink: Ink) -> Seq<char> {
    let spoken = if slash_in_first_line(buf) {
        buf
    } else {
        entry.pronunciations.text_after(buf, ink)
    };
    let named = entry.variant_forms.text_after(spoken, ink);
    entry.senses.text_after(named.push('\n'), ink)
}

/// The buffer after the entry was rendered as HTML onto `buf`: the
/// pronunciations, unless a `/` already stands in `buf` before its first `</p>`;
/// the variant forms; the end of the paragraph that the caller opened; the senses
/// as a list.
///
/// The look into `buf` is as fragile as that of the text target.
pub open spec fn entry_html_after(entry: Entry, buf: Seq<char>) -> Seq<char> {
    let spoken = if slash_in_html_head(buf) {
        buf
    } else {
        entry.pronunciations.html_after(buf)
    };
    let named = entry.variant_forms.html_after(spoken);
    entry.senses.html_after(named + "</p><ul>"@) + "</ul>"@
}

proof fn lemma_entry_extends(entry: Entry, buf: Seq<char>, ink: Ink)
    ensures
        buf.is_prefix_of(entry_text_after(entry, buf, ink)),
        buf.is_prefix_of(entry_html_after(entry, buf)),
{
    lemma_list_keeps_buffer(entry.pronunciations);
    lemma_list_keeps_buffer(entry.variant_forms);
    assert forall|i: int| 0 <= i < items(entry.senses).len() implies keeps_buffer(
        #[trigger] items(entry.senses)[i],
    ) by {
        lemma_sense_keeps_buffer(items(entry.senses)[i]);
    }
    lemma_list_keeps_buffer(entry.senses);
    {
        let spoken = if slash_in_first_line(buf) {
            buf
        } else {
            entry.pronunciations.text_after(buf, ink)
        };
        let named = entry.variant_forms.text_after(spoken, ink);
        let listed = named.push('\n');
        lemma_prefix_chain(buf, spoken, named);
        lemma_prefix_chain(buf, named, listed);
        lemma_prefix_chain(buf, listed, entry.senses.text_after(listed, ink));
    }
    {
        let spoken = if slash_in_html_head(buf) {
            buf
        } else {
            entry.pronunciations.html_after(buf)
        };
        let named = entry.variant_forms.html_after(spoken);
        let opened = named + "</p><ul>"@;
        let listed = entry.senses.html_after(opened);
        lemma_prefix_chain(buf, spoken, named);
        lemma_prefix_chain(buf, named, opened);
        lemma_prefix_chain(buf, opened, listed);
        lemma_prefix_chain(buf, listed, listed + "</ul>"@);
    }
}

impl Display for Entry {
    /// See [`entry_text_after`].
    open spec fn text_after(&self, buf: Seq<char>, ink: Ink) -> Seq<char> {
        entry_text_after(*self, buf, ink)
    }

    /// See [`entry_html_after`].
    open spec fn html_after(&self, buf: Seq<char>) -> Seq<char> {
        entry_html_after(*self, buf)
    }

    fn display(&self, output: &mut String) {
        proof {
            lemma_unstyled_list(self.pronunciations);
            lemma_unstyled_list(self.variant_forms);
        }
        if !first_line_has_slash(output.as_str()) {
            display_unstyled(&self.pronunciations, output);
        }
        display_unstyled(&self.variant_forms, output);
        push_char(output, '\n');
        let ghost listed = output@;
        self.senses.display(output);
        proof {
            let own = choose|ink: Ink| output@ == #[trigger] self.senses.text_after(listed, ink);
            assert(output@ == self.text_after(old(output)@, own));
            lemma_entry_extends(*self, old(output)@, own);
        }
    }

    fn to_html(&self, output: &mut String) {
        proof {
            lemma_entry_extends(*self, old(output)@, Ink { on: false, sub: Seq::empty() });
        }
        if !html_head_has_slash(output.as_str()) {
            self.pronunciations.to_html(output);
        }
        self.variant_forms.to_html(output);
        output.append("</p><ul>");
        self.senses.to_html(output);
        output.append("</ul>");
    }
}

/// The buffer after the lexical entry was rendered as text onto `buf`: nothing
/// where no entry has anything to show; else a line feed, the category in italics
/// (styled where `ink.on`), two spaces, and the entries.
pub open spec fn lexical_entry_text_after(
    lexical_entry: LexicalEntry,
    buf: Seq<char>,
    ink: Ink,
) -> Seq<char> {
    if bare_entries(lexical_entry.entries@) {
        buf
    } else {
        lexical_entry.entries.text_after(
            buf.push('\n') + italic_as(lexical_entry.lexical_category.id@, ink.on) + "  "@,
            ink,
        )
    }
}

/// The buffer after the lexical entry was rendered as HTML onto `buf`: nothing
/// where no entry has anything to show; else a paragraph is opened with the
/// category in italics and two spaces, and the entries follow.
pub open spec fn lexical_entry_html_after(lexical_entry: LexicalEntry, buf: Seq<char>) -> Seq<
    char,
> {
    if bare_entries(lexical_entry.entries@) {
        buf
    } else {
        lexical_entry.entries.html_after(
            buf + "<p><i>"@ + lexical_entry.lexical_category.id@ + "</i>  "@,
        )
    }
}

proof fn lemma_lexical_entry_extends(lexical_entry: LexicalEntry, buf: Seq<char>, ink: Ink)
    ensures
        buf.is_prefix_of(lexical_entry_text_after(lexical_entry, buf, ink)),
        buf.is_prefix_of(lexical_entry_html_after(lexical_entry, buf)),
{
    let entries = lexical_entry.entries@;
    assert forall|i: int| 0 <= i < entries.len() implies keeps_buffer(#[trigger] entries[i]) by {
        lemma_entry_keeps_buffer(entries[i]);
    }
    let labelled = buf.push('\n') + italic_as(lexical_entry.lexical_category.id@, ink.on) + "  "@;
    lemma_seq_keeps_buffer(entries, labelled, ink);
    lemma_prefix_chain(buf, labelled, seq_text_after(entries, labelled, ink));
    let opened = buf + "<p><i>"@ + lexical_entry.lexical_category.id@ + "</i>  "@;
    lemma_seq_keeps_buffer(entries, opened, ink);
    lemma_prefix_chain(buf, opened, seq_html_after(entries, opened));
}

impl Display for LexicalEntry {
    /// See [`lexical_entry_text_after`].
    open spec fn text_after(&self, buf: Seq<char>, ink: Ink) -> Seq<char> {
        lexical_entry_text_after(*self, buf, ink)
    }

    /// See [`lexical_entry_html_after`].
    open spec fn html_after(&self, buf: Seq<char>) -> Seq<char> {
        lexical_entry_html_after(*self, buf)
    }

    fn display(&self, output: &mut String) {
        if is_empty_entries(&self.entries) {
            assert(output@ == self.text_after(output@, Ink { on: false, sub: Seq::empty() }));
            return ;
        }
        push_char(output, '\n');
        let on = push_italic(output, self.lexical_category.id.as_str());
        output.append("  ");
        let ghost labelled = output@;
        self.entries.display(output);
        proof {
            let own = choose|ink: Ink| output@ == #[trigger] self.entries.text_after(labelled, ink);
            let ink = Ink { on: on@, sub: own.sub };
            lemma_seq_text_reads_own_ink(self.entries@, labelled, own, ink);
            assert(output@ == self.text_after(old(output)@, ink));
            lemma_lexical_entry_extends(*self, old(output)@, ink);
        }
    }

    fn to_html(&self, output: &mut String) {
        proof {
            lemma_lexical_entry_extends(*self, old(output)@, Ink { on: false, sub: Seq::empty() });
        }
        if is_empty_entries(&self.entries) {
            return ;
        }
        output.append("<p><i>");
        output.append(self.lexical_category.id.as_str());
        output.append("</i>  ");
        self.entries.to_html(output);
    }
}

/// The pronunciations that can stand beside the headword: those of the first entry
/// of its first lexical entry, none where there is no such entry.
pub open spec fn headline_pronunciations(headword: HeadwordEntry) -> Option<Vec<Pronunciation>> {
    if headword.lexical_entries@.len() > 0 && headword.lexical_entries@[0].entries@.len() > 0 {
        headword.lexical_entries@[0].entries@[0].pronunciations
    } else {
        None
    }
}

/// The buffer after the headword was rendered as text onto `buf`: the word and
/// two spaces; the headline pronunciations where the headword's pronunciation is
/// consistent; a line feed; the lexical entries; a line feed that leaves a blank
/// line behind the headword.
pub open spec fn headword_text_after(headword: HeadwordEntry, buf: Seq<char>, ink: Ink) -> Seq<
    char,
> {
    let named = buf + headword.word@ + "  "@;
    let spoken = if consistent_pronunciation(headword) {
        headline_pronunciations(headword).text_after(named, ink)
    } else {
        named
    };
    headword.lexical_entries.text_after(spoken.push('\n'), ink).push('\n')
}

/// The buffer after the headword was rendered as HTML onto `buf`: a paragraph
/// with the word, two spaces and, where the headword's pronunciation is
/// consistent, the headline pronunciations; then the lexical entries.
pub open spec fn headword_html_after(headword: HeadwordEntry, buf: Seq<char>) -> Seq<char> {
    let named = buf + "<p>"@ + headword.word@ + "  "@;
    let spoken = if consistent_pronunciation(headword) {
        headline_pronunciations(headword).html_after(named)
    } else {
        named
    };
    headword.lexical_entries.html_after(spoken + "</p>"@)
}

proof fn lemma_headword_extends(headword: HeadwordEntry, buf: Seq<char>, ink: Ink)
    ensures
        buf.is_prefix_of(headword_text_after(headword, buf, ink)),
        buf.is_prefix_of(headword_html_after(headword, buf)),
{
    let lexical_entries = headword.lexical_entries@;
    assert forall|i: int| 0 <= i < lexical_entries.len() implies keeps_buffer(
        #[trigger] lexical_entries[i],
    ) by {
        lemma_lexical_entry_keeps_buffer(lexical_entries[i]);
    }
    lemma_list_keeps_buffer(headline_pronunciations(headword));
    {
        let named = buf + headword.word@ + "  "@;
        let spoken = if consistent_pronunciation(headword) {
            headline_pronunciations(headword).text_after(named, ink)
        } else {
            named
        };
        let headed = spoken.push('\n');
        let listed = seq_text_after(lexical_entries, headed, ink);
        lemma_seq_keeps_buffer(lexical_entries, headed, ink);
        lemma_prefix_chain(buf, named, spoken);
        lemma_prefix_chain(buf, spoken, headed);
        lemma_prefix_chain(buf, headed, listed);
        lemma_prefix_chain(buf, listed, listed.push('\n'));
    }
    {
        let named = buf + "<p>"@ + headword.word@ + "  "@;
        let spoken = if consistent_pronunciation(headword) {
            headline_pronunciations(headword).html_after(named)
        } else {
            named
        };
        let headed = spoken + "</p>"@;
        lemma_seq_keeps_buffer(lexical_entries, headed, ink);
        lemma_prefix_chain(buf, named, spoken);
        lemma_prefix_chain(buf, spoken, headed);
        lemma_prefix_chain(buf, headed, seq_html_after(lexical_entries, headed));
    }
}

impl Display for HeadwordEntry {
    /// See [`headword_text_after`].
    open spec fn text_after(&self, buf: Seq<char>, ink: Ink) -> Seq<char> {
        headword_text_after(*self, buf, ink)
    }

    /// See [`headword_html_after`].
    open spec fn html_after(&self, buf: Seq<char>) -> Seq<char> {
        headword_html_after(*self, buf)
    }

    fn display(&self, output: &mut String) {
        output.append(self.word.as_str());
        output.append("  ");
        if has_consistent_pronunciation(self) {
            if self.lexical_entries.len() > 0 && self.lexical_entries[0].entries.len() > 0 {
                let first = &self.lexical_entries[0].entries[0].pronunciations;
                proof {
                    lemma_unstyled_list(*first);
                }
                display_unstyled(first, output);
            }
        }
        push_char(output, '\n');
        let ghost headed = output@;
        self.lexical_entries.display(output);
        let ghost own = choose|ink: Ink|
            output@ == #[trigger] self.lexical_entries.text_after(headed, ink);
        push_char(output, '\n');
        proof {
            assert(output@ == self.text_after(old(output)@, own));
            lemma_headword_extends(*self, old(output)@, own);
        }
    }

    fn to_html(&self, output: &mut String) {
        proof {
            lemma_headword_extends(*self, old(output)@, Ink { on: false, sub: Seq::empty() });
        }
        output.append("<p>");
        output.append(self.word.as_str());
        output.append("  ");
        if has_consistent_pronunciation(self) {
            if self.lexical_entries.len() > 0 && self.lexical_entries[0].entries.len() > 0 {
                self.lexical_entries[0].entries[0].pronunciations.to_html(output);
            }
        }
        output.append("</p>");
        self.lexical_entries.to_html(output);
    }
}

/// The buffer after the headwords were rendered as text behind `buf`, each as if
/// on a buffer of its own: no headword sees what was written before it. The ink
/// of headword `i` is `ink.sub[i]`.
pub open spec fn headwords_text_after(
    headwords: Seq<HeadwordEntry>,
    buf: Seq<char>,
    ink: Ink,
) -> Seq<char>
    decreases headwords.len(),
{
    if headwords.len() == 0 {
        buf
    } else {
        headwords_text_after(headwords.drop_last(), buf, ink) + headword_text_after(
            headwords.last(),
            Seq::empty(),
            ink.sub[headwords.len() - 1],
        )
    }
}

/// The buffer after the headwords were rendered as HTML behind `buf`, each as if
/// on a buffer of its own.
pub open spec fn headwords_html_after(headwords: Seq<HeadwordEntry>, buf: Seq<char>) -> Seq<char>
    decreases headwords.len(),
{
    if headwords.len() == 0 {
        buf
    } else {
        headwords_html_after(headwords.drop_last(), buf) + headword_html_after(
            headwords.last(),
            Seq::empty(),
        )
    }
}

proof fn lemma_headwords_text_reads_own_ink(
    headwords: Seq<HeadwordEntry>,
    buf: Seq<char>,
    a: Ink,
    b: Ink,
)
    requires
        forall|i: int| 0 <= i < headwords.len() ==> a.sub[i] == b.sub[i],
    ensures
        headwords_text_after(headwords, buf, a) == headwords_text_after(headwords, buf, b),
    decreases headwords.len(),
{
    if headwords.len() > 0 {
        lemma_headwords_text_reads_own_ink(headwords.drop_last(), buf, a, b);
    }
}

proof fn lemma_headwords_extend(headwords: Seq<HeadwordEntry>, buf: Seq<char>, ink: Ink)
    ensures
        buf.is_prefix_of(headwords_text_after(headwords, buf, ink)),
        buf.is_prefix_of(headwords_html_after(headwords, buf)),
    decreases headwords.len(),
{
    if headwords.len() > 0 {
        lemma_headwords_extend(headwords.drop_last(), buf, ink);
        let text = headwords_text_after(headwords.drop_last(), buf, ink);
        lemma_prefix_chain(buf, text, headwords_text_after(headwords, buf, ink));
        let html = headwords_html_after(headwords.drop_last(), buf);
        lemma_prefix_chain(buf, html, headwords_html_after(headwords, buf));
    }
}

impl Display for RetrieveEntry {
    /// See [`headwords_text_after`].
    open spec fn text_after(&self, buf: Seq<char>, ink: Ink) -> Seq<char> {
        headwords_text_after(self.headword_entries@, buf, ink)
    }

    /// See [`headwords_html_after`].
    open spec fn html_after(&self, buf: Seq<char>) -> Seq<char> {
        headwords_html_after(self.headword_entries@, buf)
    }

    fn display(&self, output: &mut String) {
        let headwords = &self.headword_entries;
        let ghost mut inks: Seq<Ink> = Seq::empty();
        let mut i: usize = 0;
        while i < headwords.len()
            invariant
                i <= headwords.len(),
                inks.len() == i,
                output@ == headwords_text_after(
                    headwords@.take(i as int),
                    old(output)@,
                    Ink { on: false, sub: inks },
                ),
            decreases headwords.len() - i,
        {
            let mut part = String::new();
            headwords[i].display(&mut part);
            output.append(part.as_str());
            proof {
                let own = choose|ink: Ink|
                    part@ == #[trigger] headwords[i as int].text_after(Seq::empty(), ink);
                let so_far = Ink { on: false, sub: inks };
                inks = inks.push(own);
                let now = Ink { on: false, sub: inks };
                assert(headwords@.take(i + 1).drop_last() == headwords@.take(i as int));
                lemma_headwords_text_reads_own_ink(
                    headwords@.take(i as int),
                    old(output)@,
                    so_far,
                    now,
                );
            }
            i += 1;
        }
        proof {
            let ink = Ink { on: false, sub: inks };
            assert(headwords@.take(i as int) == headwords@);
            assert(output@ == self.text_after(old(output)@, ink));
            lemma_headwords_extend(headwords@, old(output)@, ink);
        }
    }

    fn to_html(&self, output: &mut String) {
        let headwords = &self.headword_entries;
        let mut i: usize = 0;
        while i < headwords.len()
            invariant
                i <= headwords.len(),
                output@ == headwords_html_after(headwords@.take(i as int), old(output)@),
            decreases headwords.len() - i,
        {
            let mut part = String::new();
            headwords[i].to_html(&mut part);
            output.append(part.as_str());
            assert(headwords@.take(i + 1).drop_last() == headwords@.take(i as int));
            i += 1;
        }
        proof {
            assert(headwords@.take(i as int) == headwords@);
            lemma_headwords_extend(headwords@, old(output)@, Ink { on: false, sub: Seq::empty() });
        }
    }
}

/// A lexical entry whose entries have no pronunciation, no sense and no variant
/// form leaves the buffer as it was, in both targets: not even its category is shown.
pub proof fn lemma_bare_entries_render_nothing(
    lexical_entry: LexicalEntry,
    buf: Seq<char>,
    ink: Ink,
)
    requires
        bare_entries(lexical_entry.entries@),
    ensures
        lexical_entry.text_after(buf, ink) == buf,
        lexical_entry.html_after(buf) == buf,
{
}

/// Rendering an entry leaves in place what the buffer already holds.
pub proof fn lemma_entry_keeps_buffer(entry: Entry)
    ensures
        keeps_buffer(entry),
{
    assert forall|buf: Seq<char>, ink: Ink| buf.is_prefix_of(
        #[trigger] entry.text_after(buf, ink),
    ) by {
        lemma_entry_extends(entry, buf, ink);
    }
    assert forall|buf: Seq<char>| buf.is_prefix_of(#[trigger] entry.html_after(buf)) by {
        lemma_entry_extends(entry, buf, Ink { on: false, sub: Seq::empty() });
    }
}

/// Rendering a lexical entry leaves in place what the buffer already holds.
pub proof fn lemma_lexical_entry_keeps_buffer(lexical_entry: LexicalEntry)
    ensures
        keeps_buffer(lexical_entry),
{
    assert forall|buf: Seq<char>, ink: Ink| buf.is_prefix_of(
        #[trigger] lexical_entry.text_after(buf, ink),
    ) by {
        lemma_lexical_entry_extends(lexical_entry, buf, ink);
    }
    assert forall|buf: Seq<char>| buf.is_prefix_of(#[trigger] lexical_entry.html_after(buf)) by {
        lemma_lexical_entry_extends(lexical_entry, buf, Ink { on: false, sub: Seq::empty() });
    }
}

/// Rendering a headword leaves in place what the buffer already holds.
pub proof fn lemma_headword_keeps_buffer(headword: HeadwordEntry)
    ensures
        keeps_buffer(headword),
{
    assert forall|buf: Seq<char>, ink: Ink| buf.is_prefix_of(
        #[trigger] headword.text_after(buf, ink),
    ) by {
        lemma_headword_extends(headword, buf, ink);
    }
    assert forall|buf: Seq<char>| buf.is_prefix_of(#[trigger] headword.html_after(buf)) by {
        lemma_headword_extends(headword, buf, Ink { on: false, sub: Seq::empty() });
    }
}

/// Rendering a lookup leaves in place what the buffer already holds.
pub proof fn lemma_lookup_keeps_buffer(retrieve_entry: RetrieveEntry)
    ensures
        keeps_buffer(retrieve_entry),
{
    assert forall|buf: Seq<char>, ink: Ink| buf.is_prefix_of(
        #[trigger] retrieve_entry.text_after(buf, ink),
    ) by {
        lemma_headwords_extend(retrieve_entry.headword_entries@, buf, ink);
    }
    assert forall|buf: Seq<char>| buf.is_prefix_of(#[trigger] retrieve_entry.html_after(buf)) by {
        lemma_headwords_extend(
            retrieve_entry.headword_entries@,
            buf,
            Ink { on: false, sub: Seq::empty() },
        );
    }
}

/// Whether two entries hold the same items, list by list: where one has an empty
/// list the other may have none.
pub open spec fn same_entry_items(a: Entry, b: Entry) -> bool {
    &&& items(a.senses) == items(b.senses)
    &&& items(a.pronunciations) == items(b.pronunciations)
    &&& items(a.variant_forms) == items(b.variant_forms)
    &&& items(a.origins) == items(b.origins)
}

/// Entries that hold the same items render alike, in both targets: nothing tells
/// a list that is absent from one that is empty.
pub proof fn lemma_entry_renders_its_items(a: Entry, b: Entry, buf: Seq<char>, ink: Ink)
    requires
        same_entry_items(a, b),
    ensures
        a.text_after(buf, ink) == b.text_after(buf, ink),
        a.html_after(buf) == b.html_after(buf),
{
    {
        lemma_list_renders_its_items(a.pronunciations, buf, ink);
        lemma_list_renders_its_items(b.pronunciations, buf, ink);
        let spoken = if slash_in_first_line(buf) {
            buf
        } else {
            a.pronunciations.text_after(buf, ink)
        };
        lemma_list_renders_its_items(a.variant_forms, spoken, ink);
        lemma_list_renders_its_items(b.variant_forms, spoken, ink);
        let listed = a.variant_forms.text_after(spoken, ink).push('\n');
        lemma_list_renders_its_items(a.senses, listed, ink);
        lemma_list_renders_its_items(b.senses, listed, ink);
    }
    {
        let spoken = if slash_in_html_head(buf) {
            buf
        } else {
            a.pronunciations.html_after(buf)
        };
        lemma_list_renders_its_items(a.variant_forms, spoken, ink);
        lemma_list_renders_its_items(b.variant_forms, spoken, ink);
        let opened = a.variant_forms.html_after(spoken) + "</p><ul>"@;
        lemma_list_renders_its_items(a.senses, opened, ink);
        lemma_list_renders_its_items(b.senses, opened, ink);
    }
}

} // verus!
