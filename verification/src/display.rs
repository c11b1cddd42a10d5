//! Rendering of an entry tree, as styled text for a terminal or as an HTML fragment.
//!
//! Both targets only ever append to the caller's buffer. What is appended can
//! depend on what the buffer already holds: an entry looks there for a
//! pronunciation written earlier. So each rendering is stated as the buffer
//! *after* it, given the buffer before it.
//!
//! In the text target some pieces are styled by `colored`, which decides call by
//! call whether to style at all; the [`Ink`] of a rendering says which pieces it
//! did style.
//!
//! This file holds the trait, the rules for optional values and lists, and the
//! leaves of the tree; [`sense`] and [`entry`] hold the levels above them.

pub mod entry;
pub mod sense;

use crate::models::items;
use crate::models::Domain;
use crate::models::Example;
use crate::models::Pronunciation;
use crate::models::Register;
use crate::models::VariantForm;
use crate::style::italic_blue_as;
use crate::style::push_italic_blue;
use crate::style::Ink;
use crate::text::push_char;
use crate::text::push_sentence;
use crate::text::quote;
use crate::text::quoted;
use crate::text::trim;
use crate::text::trimmed;
use crate::text::with_full_stop;
use vstd::prelude::*;

verus! {

/// A value that can be rendered onto a buffer, in either target.
pub trait Display {
    /// The buffer after this value was rendered as text onto `buf`, where `ink`
    /// tells which of its styled pieces came back styled. A value without styled
    /// pieces pays no attention to `ink`.
    spec fn text_after(&self, buf: Seq<char>, ink: Ink) -> Seq<char>;

    /// The buffer after this value was rendered as HTML onto `buf`.
    spec fn html_after(&self, buf: Seq<char>) -> Seq<char>;

    /// Renders this value as text for a terminal, at the end of `output`.
    fn display(&self, output: &mut String)
        ensures
            old(output)@.is_prefix_of(final(output)@),
            exists|ink: Ink| final(output)@ == #[trigger] self.text_after(old(output)@, ink),
    ;

    /// Renders this value as an HTML fragment, at the end of `output`.
    fn to_html(&self, output: &mut String)
        ensures
            old(output)@.is_prefix_of(final(output)@),
            final(output)@ == self.html_after(old(output)@),
    ;
}

/// Whether the text of `x` is the same under every ink: it has no styled piece.
pub open spec fn unstyled<T: Display>(x: T) -> bool {
    forall|buf: Seq<char>, a: Ink, b: Ink| #[trigger]
        x.text_after(buf, a) == #[trigger] x.text_after(buf, b)
}

/// Whether rendering `x` leaves in place what the buffer already holds, in both targets.
pub open spec fn keeps_buffer<T: Display>(x: T) -> bool {
    &&& forall|buf: Seq<char>, ink: Ink| buf.is_prefix_of(#[trigger] x.text_after(buf, ink))
    &&& forall|buf: Seq<char>| buf.is_prefix_of(#[trigger] x.html_after(buf))
}

/// The buffer after the items were rendered as text one after the other onto
/// `buf`; the ink of item `i` is `ink.sub[i]`.
pub open spec fn seq_text_after<T: Display>(items: Seq<T>, buf: Seq<char>, ink: Ink) -> Seq<char>
    decreases items.len(),
{
    if items.len() == 0 {
        buf
    } else {
        items.last().text_after(
            seq_text_after(items.drop_last(), buf, ink),
            ink.sub[items.len() - 1],
        )
    }
}

/// The buffer after the items were rendered as HTML one after the other onto `buf`.
pub open spec fn seq_html_after<T: Display>(items: Seq<T>, buf: Seq<char>) -> Seq<char>
    decreases items.len(),
{
    if items.len() == 0 {
        buf
    } else {
        items.last().html_after(seq_html_after(items.drop_last(), buf))
    }
}

/// The text of a list reads only the inks of its own positions.
pub proof fn lemma_seq_text_reads_own_ink<T: Display>(
    items: Seq<T>,
    buf: Seq<char>,
    a: Ink,
    b: Ink,
)
    requires
        forall|i: int| 0 <= i < items.len() ==> a.sub[i] == b.sub[i],
    ensures
        seq_text_after(items, buf, a) == seq_text_after(items, buf, b),
    decreases items.len(),
{
    if items.len() > 0 {
        lemma_seq_text_reads_own_ink(items.drop_last(), buf, a, b);
    }
}

/// A list of unstyled items is unstyled.
pub proof fn lemma_unstyled_seq<T: Display>(items: Seq<T>, buf: Seq<char>, a: Ink, b: Ink)
    requires
        forall|i: int| 0 <= i < items.len() ==> unstyled(#[trigger] items[i]),
    ensures
        seq_text_after(items, buf, a) == seq_text_after(items, buf, b),
    decreases items.len(),
{
    if items.len() > 0 {
        lemma_unstyled_seq(items.drop_last(), buf, a, b);
        assert(unstyled(items.last()));
    }
}

/// An optional list of unstyled items is unstyled.
pub proof fn lemma_unstyled_list<T: Display>(list: Option<Vec<T>>)
    requires
        forall|i: int| 0 <= i < items(list).len() ==> unstyled(#[trigger] items(list)[i]),
    ensures
        unstyled(list),
{
    assert forall|buf: Seq<char>, a: Ink, b: Ink| #[trigger]
        list.text_after(buf, a) == #[trigger] list.text_after(buf, b) by {
        lemma_unstyled_seq(items(list), buf, a, b);
    }
}

/// A prefix of a prefix is a prefix.
pub proof fn lemma_prefix_chain(a: Seq<char>, b: Seq<char>, c: Seq<char>)
    requires
        a.is_prefix_of(b),
        b.is_prefix_of(c),
    ensures
        a.is_prefix_of(c),
{
    assert(a =~= c.subrange(0, a.len() as int));
}

/// A list of items that keep the buffer keeps the buffer.
pub proof fn lemma_seq_keeps_buffer<T: Display>(items: Seq<T>, buf: Seq<char>, ink: Ink)
    requires
        forall|i: int| 0 <= i < items.len() ==> keeps_buffer(#[trigger] items[i]),
    ensures
        buf.is_prefix_of(seq_text_after(items, buf, ink)),
        buf.is_prefix_of(seq_html_after(items, buf)),
    decreases items.len(),
{
    if items.len() > 0 {
        lemma_seq_keeps_buffer(items.drop_last(), buf, ink);
        assert(keeps_buffer(items.last()));
        let text = seq_text_after(items.drop_last(), buf, ink);
        lemma_prefix_chain(buf, text, items.last().text_after(text, ink.sub[items.len() - 1]));
        let html = seq_html_after(items.drop_last(), buf);
        lemma_prefix_chain(buf, html, items.last().html_after(html));
    }
}

/// An optional list of items that keep the buffer keeps the buffer.
pub proof fn lemma_list_keeps_buffer<T: Display>(list: Option<Vec<T>>)
    requires
        forall|i: int| 0 <= i < items(list).len() ==> keeps_buffer(#[trigger] items(list)[i]),
    ensures
        keeps_buffer(list),
{
    assert forall|buf: Seq<char>, ink: Ink| buf.is_prefix_of(
        #[trigger] list.text_after(buf, ink),
    ) by {
        lemma_seq_keeps_buffer(items(list), buf, ink);
    }
    assert forall|buf: Seq<char>| buf.is_prefix_of(#[trigger] list.html_after(buf)) by {
        lemma_seq_keeps_buffer(items(list), buf, Ink { on: false, sub: Seq::empty() });
    }
}

/// An optional list renders as the list of what it holds: a list that is absent
/// and a list that is empty render alike.
pub proof fn lemma_list_renders_its_items<T: Display>(
    list: Option<Vec<T>>,
    buf: Seq<char>,
    ink: Ink,
)
    ensures
        list.text_after(buf, ink) == seq_text_after(items(list), buf, ink),
        list.html_after(buf) == seq_html_after(items(list), buf),
{
}

impl<T: Display> Display for Option<T> {
    /// Nothing is rendered for a value that is absent.
    open spec fn text_after(&self, buf: Seq<char>, ink: Ink) -> Seq<char> {
        match self {
            Some(value) => value.text_after(buf, ink),
            None => buf,
        }
    }

    open spec fn html_after(&self, buf: Seq<char>) -> Seq<char> {
        match self {
            Some(value) => value.html_after(buf),
            None => buf,
        }
    }

    fn display(&self, output: &mut String) {
        if let Some(value) = self {
            value.display(output);
            proof {
                let own = choose|ink: Ink| output@ == #[trigger] value.text_after(old(output)@, ink);
                assert(output@ == self.text_after(old(output)@, own));
            }
        } else {
            assert(output@ == self.text_after(output@, Ink { on: false, sub: Seq::empty() }));
        }
    }

    fn to_html(&self, output: &mut String) {
        if let Some(value) = self {
            value.to_html(output);
        }
    }
}

impl<T: Display> Display for Vec<T> {
    /// The items are rendered in order, with nothing between them.
    open spec fn text_after(&self, buf: Seq<char>, ink: Ink) -> Seq<char> {
        seq_text_after(self@, buf, ink)
    }

    open spec fn html_after(&self, buf: Seq<char>) -> Seq<char> {
        seq_html_after(self@, buf)
    }

    fn display(&self, output: &mut String) {
        let ghost mut inks: Seq<Ink> = Seq::empty();
        let mut i: usize = 0;
        while i < self.len()
            invariant
                i <= self.len(),
                inks.len() == i,
                old(output)@.is_prefix_of(output@),
                output@ == seq_text_after(
                    self@.take(i as int),
                    old(output)@,
                    Ink { on: false, sub: inks },
                ),
            decreases self.len() - i,
        {
            let ghost before = output@;
            self[i].display(output);
            proof {
                lemma_prefix_chain(old(output)@, before, output@);
                let own = choose|ink: Ink| output@ == #[trigger] self[i as int].text_after(before, ink);
                let so_far = Ink { on: false, sub: inks };
                inks = inks.push(own);
                let now = Ink { on: false, sub: inks };
                assert(self@.take(i + 1).drop_last() == self@.take(i as int));
                lemma_seq_text_reads_own_ink(self@.take(i as int), old(output)@, so_far, now);
            }
            i += 1;
        }
        assert(self@.take(i as int) == self@);
        assert(output@ == self.text_after(old(output)@, Ink { on: false, sub: inks }));
    }

    fn to_html(&self, output: &mut String) {
        let mut i: usize = 0;
        while i < self.len()
            invariant
                i <= self.len(),
                old(output)@.is_prefix_of(output@),
                output@ == seq_html_after(self@.take(i as int), old(output)@),
            decreases self.len() - i,
        {
            assert(self@.take(i + 1).drop_last() == self@.take(i as int));
            let ghost before = output@;
            self[i].to_html(output);
            proof {
                lemma_prefix_chain(old(output)@, before, output@);
            }
            i += 1;
        }
        assert(self@.take(i as int) == self@);
    }
}

/// Renders as text a value that has no styled piece: the result is known under every ink.
pub(crate) fn display_unstyled<T: Display>(x: &T, output: &mut String)
    requires
        unstyled(*x),
    ensures
        old(output)@.is_prefix_of(final(output)@),
        forall|ink: Ink| final(output)@ == #[trigger] x.text_after(old(output)@, ink),
{
    x.display(output);
    proof {
        let own = choose|ink: Ink| output@ == #[trigger] x.text_after(old(output)@, ink);
        assert forall|ink: Ink| output@ == #[trigger] x.text_after(old(output)@, ink) by {
            assert(x.text_after(old(output)@, own) == x.text_after(old(output)@, ink));
        }
    }
}

/// A definition, a cross-reference marker or an origin: the sentence on a line of its own.
impl Display for String {
    open spec fn text_after(&self, buf: Seq<char>, ink: Ink) -> Seq<char> {
        (buf + with_full_stop(self@)).push('\n')
    }

    open spec fn html_after(&self, buf: Seq<char>) -> Seq<char> {
        buf + with_full_stop(self@) + "<br>"@
    }

    fn display(&self, output: &mut String) {
        push_sentence(output, self.as_str());
        push_char(output, '\n');
        assert(output@ == self.text_after(old(output)@, Ink { on: false, sub: Seq::empty() }));
    }

    fn to_html(&self, output: &mut String) {
        push_sentence(output, self.as_str());
        output.append("<br>");
    }
}

/// The example as it is shown in both targets: trimmed, between double quotes.
pub open spec fn example_quote(example: Example) -> Seq<char> {
    quoted(trimmed(example.text@))
}

impl Display for Example {
    /// The quoted example in blue italics, on a line of its own.
    open spec fn text_after(&self, buf: Seq<char>, ink: Ink) -> Seq<char> {
        (buf + italic_blue_as(example_quote(*self), ink.on)).push('\n')
    }

    open spec fn html_after(&self, buf: Seq<char>) -> Seq<char> {
        buf + example_quote(*self) + "<br>"@
    }

    fn display(&self, output: &mut String) {
        let text = quote(trim(self.text.as_str()).as_str());
        let on = push_italic_blue(output, text.as_str());
        push_char(output, '\n');
        assert(output@ == self.text_after(old(output)@, Ink { on: on@, sub: Seq::empty() }));
    }

    fn to_html(&self, output: &mut String) {
        let text = quote(trim(self.text.as_str()).as_str());
        output.append(text.as_str());
        output.append("<br>");
    }
}

/// The note that names a variant form, the same in both targets:
/// ` (also TEXT) `, or ` (also TEXT [REGION]) ` with the first of its regions.
pub open spec fn variant_note(form: VariantForm) -> Seq<char> {
    let regions = items(form.regions);
    if regions.len() > 0 {
        " (also "@ + form.text@ + " ["@ + regions[0].text@ + "]"@ + ") "@
    } else {
        " (also "@ + form.text@ + ") "@
    }
}

fn push_variant_note(form: &VariantForm, output: &mut String)
    ensures
        final(output)@ == old(output)@ + variant_note(*form),
{
    output.append(" (also ");
    output.append(form.text.as_str());
    if let Some(regions) = &form.regions {
        if regions.len() > 0 {
            output.append(" [");
            output.append(regions[0].text.as_str());
            output.append("]");
        }
    }
    output.append(") ");
}

impl Display for VariantForm {
    open spec fn text_after(&self, buf: Seq<char>, ink: Ink) -> Seq<char> {
        buf + variant_note(*self)
    }

    open spec fn html_after(&self, buf: Seq<char>) -> Seq<char> {
        buf + variant_note(*self)
    }

    fn display(&self, output: &mut String) {
        push_variant_note(self, output);
        assert(output@ == self.text_after(old(output)@, Ink { on: false, sub: Seq::empty() }));
    }

    fn to_html(&self, output: &mut String) {
        push_variant_note(self, output);
    }
}

/// The spelling between slashes, the same in both targets; nothing unless the
/// notation is IPA and a spelling is there.
pub open spec fn pronunciation_note(pronunciation: Pronunciation) -> Seq<char> {
    match pronunciation.phonetic_spelling {
        Some(spelling) if pronunciation.phonetic_notation@ == "IPA"@ => "/"@ + spelling@ + "/ "@,
        _ => Seq::empty(),
    }
}

fn push_pronunciation_note(pronunciation: &Pronunciation, output: &mut String)
    ensures
        final(output)@ == old(output)@ + pronunciation_note(*pronunciation),
{
    if pronunciation.phonetic_notation == String::from_str("IPA") {
        if let Some(spelling) = &pronunciation.phonetic_spelling {
            output.append("/");
            output.append(spelling.as_str());
            output.append("/ ");
        }
    }
}

impl Display for Pronunciation {
    open spec fn text_after(&self, buf: Seq<char>, ink: Ink) -> Seq<char> {
        buf + pronunciation_note(*self)
    }

    open spec fn html_after(&self, buf: Seq<char>) -> Seq<char> {
        buf + pronunciation_note(*self)
    }

    fn display(&self, output: &mut String) {
        push_pronunciation_note(self, output);
        assert(output@ == self.text_after(old(output)@, Ink { on: false, sub: Seq::empty() }));
    }

    fn to_html(&self, output: &mut String) {
        push_pronunciation_note(self, output);
    }
}

/// A tag between square brackets, the same in both targets.
pub open spec fn tag(text: Seq<char>) -> Seq<char> {
    "["@ + text + "] "@
}

fn push_tag(text: &str, output: &mut String)
    ensures
        final(output)@ == old(output)@ + tag(text@),
{
    output.append("[");
    output.append(text);
    output.append("] ");
}

impl Display for Domain {
    open spec fn text_after(&self, buf: Seq<char>, ink: Ink) -> Seq<char> {
        buf + tag(self.text@)
    }

    open spec fn html_after(&self, buf: Seq<char>) -> Seq<char> {
        buf + tag(self.text@)
    }

    fn display(&self, output: &mut String) {
        push_tag(self.text.as_str(), output);
        assert(output@ == self.text_after(old(output)@, Ink { on: false, sub: Seq::empty() }));
    }

    fn to_html(&self, output: &mut String) {
        push_tag(self.text.as_str(), output);
    }
}

impl Display for Register {
    open spec fn text_after(&self, buf: Seq<char>, ink: Ink) -> Seq<char> {
        buf + tag(self.text@)
    }

    open spec fn html_after(&self, buf: Seq<char>) -> Seq<char> {
        buf + tag(self.text@)
    }

    fn display(&self, output: &mut String) {
        push_tag(self.text.as_str(), output);
        assert(output@ == self.text_after(old(output)@, Ink { on: false, sub: Seq::empty() }));
    }

    fn to_html(&self, output: &mut String) {
        push_tag(self.text.as_str(), output);
    }
}

} // verus!
