//! Rendering of a sense and of the senses below it.
//!
//! A sense is shown only where it has a definition or a cross-reference marker.
//! As text it is a bullet block, and the blocks of its subsenses stand inside
//! that block, one indent unit deeper with each level. As HTML it is a list item
//! that holds the list of its subsenses.

use crate::display::display_unstyled;
use crate::display::keeps_buffer;
use crate::display::lemma_list_keeps_buffer;
use crate::display::lemma_list_renders_its_items;
use crate::display::lemma_prefix_chain;
use crate::display::lemma_unstyled_list;
use crate::display::seq_html_after;
use crate::display::seq_text_after;
use crate::display::Display;
use crate::models::bare_sense;
use crate::models::has_items;
use crate::models::is_empty_sense;
use crate::models::items;
use crate::models::Sense;
use crate::style::Ink;
use crate::text::bullet;
use crate::text::bullet_block;
use crate::text::bullet_lines;
use crate::text::indent_unit;
use crate::text::indented;
use crate::text::lemma_bullet_block_concat;
use crate::text::lemma_bullet_block_of_lines;
use crate::text::lemma_indented_concat;
use crate::text::lemma_indented_line;
use crate::text::lemma_shifted_concat;
use crate::text::push_char;
use crate::text::shifted;
use crate::text::whole_lines;
use crate::text::with_full_stop;
use vstd::prelude::*;

verus! {

/// Whether the sense carries a domain or a register tag.
pub open spec fn tagged(sense: Sense) -> bool {
    items(sense.domains).len() > 0 || items(sense.registers).len() > 0
}

/// The lines that a sense of the text target writes for itself: the tags on a
/// line of their own, the definitions, the cross-reference markers, the examples.
/// The examples read `ink.sub[0]`.
pub open spec fn sense_lines(sense: Sense, ink: Ink) -> Seq<char> {
    let tags = sense.registers.text_after(sense.domains.text_after(Seq::empty(), ink), ink);
    let head = if tagged(sense) {
        tags.push('\n')
    } else {
        tags
    };
    let said = sense.cross_reference_markers.text_after(
        sense.definitions.text_after(head, ink),
        ink,
    );
    sense.examples.text_after(said, ink.sub[0])
}

/// What a sense of the text target holds before it is indented and given its
/// bullet: its own lines, then its subsenses, each already a finished block.
/// The subsenses read `ink.sub[1]`.
pub open spec fn sense_body(sense: Sense, ink: Ink) -> Seq<char>
    decreases sense, 1int,
{
    match sense.subsenses {
        Some(subsenses) => senses_text_after(subsenses@, sense_lines(sense, ink), ink.sub[1]),
        None => sense_lines(sense, ink),
    }
}

/// The buffer after the sense was rendered as text onto `buf`: nothing is added for
/// a sense without definition and cross-reference marker; others add their
/// body as a bullet block.
pub open spec fn sense_text_after(sense: Sense, buf: Seq<char>, ink: Ink) -> Seq<char>
    decreases sense, 2int,
{
    if bare_sense(sense) {
        buf
    } else {
        buf + bullet_block(sense_body(sense, ink))
    }
}

/// The buffer after the senses were rendered as text one after the other onto
/// `buf`; the ink of sense `i` is `ink.sub[i]`.
pub open spec fn senses_text_after(senses: Seq<Sense>, buf: Seq<char>, ink: Ink) -> Seq<char>
    decreases senses, 0int,
{
    if senses.len() == 0 {
        buf
    } else {
        sense_text_after(
            senses.last(),
            senses_text_after(senses.drop_last(), buf, ink),
            ink.sub[senses.len() - 1],
        )
    }
}

/// The buffer after the sense was rendered as HTML onto `buf`: nothing is added for
/// a sense without definition and cross-reference marker; others add a list item
/// with the tags, a line break after them where there are any, the definitions,
/// the cross-reference markers, the examples, and the list of the subsenses.
pub open spec fn sense_html_after(sense: Sense, buf: Seq<char>) -> Seq<char>
    decreases sense, 1int,
{
    if bare_sense(sense) {
        buf
    } else {
        let tags = sense.registers.html_after(sense.domains.html_after(buf + "<li>"@));
        let head = if tagged(sense) {
            tags + "<br>"@
        } else {
            tags
        };
        let shown = sense.examples.html_after(
            sense.cross_reference_markers.html_after(sense.definitions.html_after(head)),
        );
        let listed = match sense.subsenses {
            Some(subsenses) => senses_html_after(subsenses@, shown + "<ul>"@),
            None => shown + "<ul>"@,
        };
        listed + "</ul></li>"@
    }
}

/// The buffer after the senses were rendered as HTML one after the other onto `buf`.
pub open spec fn senses_html_after(senses: Seq<Sense>, buf: Seq<char>) -> Seq<char>
    decreases senses, 0int,
{
    if senses.len() == 0 {
        buf
    } else {
        sense_html_after(senses.last(), senses_html_after(senses.drop_last(), buf))
    }
}

proof fn lemma_senses_text_reads_own_ink(senses: Seq<Sense>, buf: Seq<char>, a: Ink, b: Ink)
    requires
        forall|i: int| 0 <= i < senses.len() ==> a.sub[i] == b.sub[i],
    ensures
        senses_text_after(senses, buf, a) == senses_text_after(senses, buf, b),
    decreases senses.len(),
{
    if senses.len() > 0 {
        lemma_senses_text_reads_own_ink(senses.drop_last(), buf, a, b);
    }
}

proof fn lemma_senses_html_extend(senses: Seq<Sense>, buf: Seq<char>)
    ensures
        buf.is_prefix_of(senses_html_after(senses, buf)),
    decreases senses, 0int,
{
    if senses.len() > 0 {
        let before = senses_html_after(senses.drop_last(), buf);
        lemma_senses_html_extend(senses.drop_last(), buf);
        lemma_sense_html_extends(senses.last(), before);
        lemma_prefix_chain(buf, before, sense_html_after(senses.last(), before));
    }
}

proof fn lemma_sense_html_extends(sense: Sense, buf: Seq<char>)
    ensures
        buf.is_prefix_of(sense_html_after(sense, buf)),
    decreases sense, 1int,
{
    if !bare_sense(sense) {
        lemma_list_keeps_buffer(sense.domains);
        lemma_list_keeps_buffer(sense.registers);
        lemma_list_keeps_buffer(sense.definitions);
        lemma_list_keeps_buffer(sense.cross_reference_markers);
        lemma_list_keeps_buffer(sense.examples);
        let opened = buf + "<li>"@;
        let classed = sense.domains.html_after(opened);
        let tags = sense.registers.html_after(classed);
        let head = if tagged(sense) {
            tags + "<br>"@
        } else {
            tags
        };
        let defined = sense.definitions.html_after(head);
        let said = sense.cross_reference_markers.html_after(defined);
        let shown = sense.examples.html_after(said);
        let listed = match sense.subsenses {
            Some(subsenses) => senses_html_after(subsenses@, shown + "<ul>"@),
            None => shown + "<ul>"@,
        };
        match sense.subsenses {
            Some(subsenses) => {
                lemma_senses_html_extend(subsenses@, shown + "<ul>"@);
            },
            None => {},
        }
        lemma_prefix_chain(buf, opened, classed);
        lemma_prefix_chain(buf, classed, tags);
        lemma_prefix_chain(buf, tags, head);
        lemma_prefix_chain(buf, head, defined);
        lemma_prefix_chain(buf, defined, said);
        lemma_prefix_chain(buf, said, shown);
        lemma_prefix_chain(buf, shown, shown + "<ul>"@);
        lemma_prefix_chain(buf, shown + "<ul>"@, listed);
        lemma_prefix_chain(buf, listed, listed + "</ul></li>"@);
    }
}

fn sense_display(sense: &Sense, output: &mut String) -> (ink: Ghost<Ink>)
    ensures
        old(output)@.is_prefix_of(final(output)@),
        final(output)@ == sense_text_after(*sense, old(output)@, ink@),
    decreases sense,
{
    if is_empty_sense(sense) {
        return Ghost(Ink { on: false, sub: Seq::empty() });
    }
    let mut body = String::new();
    proof {
        lemma_unstyled_list(sense.domains);
        lemma_unstyled_list(sense.registers);
        lemma_unstyled_list(sense.definitions);
        lemma_unstyled_list(sense.cross_reference_markers);
    }
    display_unstyled(&sense.domains, &mut body);
    display_unstyled(&sense.registers, &mut body);
    if has_items(&sense.domains) || has_items(&sense.registers) {
        push_char(&mut body, '\n');
    }
    display_unstyled(&sense.definitions, &mut body);
    display_unstyled(&sense.cross_reference_markers, &mut body);
    let ghost said = body@;
    sense.examples.display(&mut body);
    let ghost examples_ink = choose|ink: Ink|
        body@ == #[trigger] sense.examples.text_after(said, ink);
    let ghost lines = body@;
    let ghost mut inks: Seq<Ink> = Seq::empty();
    if let Some(subsenses) = &sense.subsenses {
        let mut i: usize = 0;
        while i < subsenses.len()
            invariant
                i <= subsenses.len(),
                inks.len() == i,
                sense.subsenses == Some(*subsenses),
                decreases_to!(sense => subsenses),
                body@ == senses_text_after(
                    subsenses@.take(i as int),
                    lines,
                    Ink { on: false, sub: inks },
                ),
            decreases subsenses.len() - i,
        {
            let own = sense_display(&subsenses[i], &mut body);
            proof {
                let so_far = Ink { on: false, sub: inks };
                inks = inks.push(own@);
                let now = Ink { on: false, sub: inks };
                assert(subsenses@.take(i + 1).drop_last() == subsenses@.take(i as int));
                lemma_senses_text_reads_own_ink(subsenses@.take(i as int), lines, so_far, now);
            }
            i += 1;
        }
        assert(subsenses@.take(i as int) == subsenses@);
    }
    let block = bullet_lines(body.as_str());
    output.append(block.as_str());
    let ghost ink = Ink { on: false, sub: seq![examples_ink, Ink { on: false, sub: inks }] };
    assert(body@ == sense_body(*sense, ink));
    Ghost(ink)
}

fn sense_to_html(sense: &Sense, output: &mut String)
    ensures
        old(output)@.is_prefix_of(final(output)@),
        final(output)@ == sense_html_after(*sense, old(output)@),
    decreases sense,
{
    proof {
        lemma_sense_html_extends(*sense, old(output)@);
    }
    if is_empty_sense(sense) {
        return ;
    }
    output.append("<li>");
    sense.domains.to_html(output);
    sense.registers.to_html(output);
    if has_items(&sense.domains) || has_items(&sense.registers) {
        output.append("<br>");
    }
    sense.definitions.to_html(output);
    sense.cross_reference_markers.to_html(output);
    sense.examples.to_html(output);
    output.append("<ul>");
    let ghost opened = output@;
    if let Some(subsenses) = &sense.subsenses {
        let mut i: usize = 0;
        while i < subsenses.len()
            invariant
                i <= subsenses.len(),
                sense.subsenses == Some(*subsenses),
                decreases_to!(sense => subsenses),
                output@ == senses_html_after(subsenses@.take(i as int), opened),
            decreases subsenses.len() - i,
        {
            assert(subsenses@.take(i + 1).drop_last() == subsenses@.take(i as int));
            sense_to_html(&subsenses[i], output);
            i += 1;
        }
        assert(subsenses@.take(i as int) == subsenses@);
    }
    output.append("</ul></li>");
}

impl Display for Sense {
    /// See [`sense_text_after`].
    open spec fn text_after(&self, buf: Seq<char>, ink: Ink) -> Seq<char> {
        sense_text_after(*self, buf, ink)
    }

    /// See [`sense_html_after`].
    open spec fn html_after(&self, buf: Seq<char>) -> Seq<char> {
        sense_html_after(*self, buf)
    }

    fn display(&self, output: &mut String) {
        let ink = sense_display(self, output);
        assert(output@ == self.text_after(old(output)@, ink@));
    }

    fn to_html(&self, output: &mut String) {
        sense_to_html(self, output);
    }
}

/// A sense without definition and without cross-reference marker leaves the buffer
/// as it was, in both targets, whatever its examples, tags and subsenses.
pub proof fn lemma_bare_sense_renders_nothing(sense: Sense, buf: Seq<char>, ink: Ink)
    requires
        bare_sense(sense),
    ensures
        sense.text_after(buf, ink) == buf,
        sense.html_after(buf) == buf,
{
}

/// Rendering a sense leaves in place what the buffer already holds.
pub proof fn lemma_sense_keeps_buffer(sense: Sense)
    ensures
        keeps_buffer(sense),
{
    assert forall|buf: Seq<char>| buf.is_prefix_of(#[trigger] sense.html_after(buf)) by {
        lemma_sense_html_extends(sense, buf);
    }
}

/// A list of senses renders the same as the subsenses of a sense and as a list of
/// its own, in both targets.
pub proof fn lemma_senses_as_list(senses: Seq<Sense>, buf: Seq<char>, ink: Ink)
    ensures
        seq_text_after(senses, buf, ink) == senses_text_after(senses, buf, ink),
        seq_html_after(senses, buf) == senses_html_after(senses, buf),
    decreases senses.len(),
{
    if senses.len() > 0 {
        lemma_senses_as_list(senses.drop_last(), buf, ink);
    }
}

/// A sense that is shown writes at least one line for itself, and ends its last line.
pub proof fn lemma_sense_lines_end(sense: Sense, ink: Ink)
    requires
        !bare_sense(sense),
    ensures
        sense_lines(sense, ink).len() > 0,
        sense_lines(sense, ink).last() == '\n',
{
}

/// The senses of a list do not look at the buffer: on every buffer they add the
/// same whole lines.
pub proof fn lemma_senses_add_whole_lines(senses: Seq<Sense>, buf: Seq<char>, ink: Ink)
    ensures
        senses_text_after(senses, buf, ink) == buf + senses_text_after(
            senses,
            Seq::empty(),
            ink,
        ),
        whole_lines(senses_text_after(senses, Seq::empty(), ink)),
    decreases senses, 0int,
{
    let none = Seq::<char>::empty();
    if senses.len() == 0 {
        assert(buf + none == buf);
    } else {
        let front = senses.drop_last();
        let own = ink.sub[senses.len() - 1];
        lemma_senses_add_whole_lines(front, buf, ink);
        lemma_sense_adds_whole_lines(senses.last(), own);
        let before = senses_text_after(front, none, ink);
        let block = sense_text_after(senses.last(), none, own);
        assert(sense_text_after(senses.last(), buf + before, own) == buf + before + block) by {
            if !bare_sense(senses.last()) {
                assert(none + bullet_block(sense_body(senses.last(), own)) == bullet_block(
                    sense_body(senses.last(), own),
                ));
            } else {
                assert(buf + before + none == buf + before);
            }
        }
        assert(sense_text_after(senses.last(), before, own) == before + block) by {
            if !bare_sense(senses.last()) {
                assert(none + bullet_block(sense_body(senses.last(), own)) == bullet_block(
                    sense_body(senses.last(), own),
                ));
            } else {
                assert(before + none == before);
            }
        }
        assert(buf + before + block == buf + (before + block));
    }
}

/// A sense adds whole lines: nothing, or a block that ends its last line.
pub proof fn lemma_sense_adds_whole_lines(sense: Sense, ink: Ink)
    ensures
        whole_lines(sense_text_after(sense, Seq::empty(), ink)),
    decreases sense, 1int,
{
    if !bare_sense(sense) {
        lemma_subsenses_one_unit_deeper(sense, Seq::empty(), ink);
        let lines = sense_lines(sense, ink);
        let below = senses_text_after(items(sense.subsenses), Seq::empty(), ink.sub[1]);
        lemma_sense_lines_end(sense, ink);
        assert(lines == lines.drop_last().push('\n'));
        lemma_bullet_block_of_lines(lines.drop_last());
        match sense.subsenses {
            Some(subsenses) => {
                lemma_senses_add_whole_lines(subsenses@, lines, ink.sub[1]);
            },
            None => {},
        }
        lemma_shifted_concat(below, Seq::empty());
    }
}

/// Subsenses stand one indent unit deeper than their sense.
///
/// The block of a sense that is shown is the block of its own lines, followed by
/// the lines that its subsenses would write on their own, each shifted by one
/// indent unit. Applied level by level, a subsense at depth `n` stands `n` indent
/// units to the right.
pub proof fn lemma_subsenses_one_unit_deeper(sense: Sense, buf: Seq<char>, ink: Ink)
    requires
        !bare_sense(sense),
    ensures
        sense.text_after(buf, ink) == buf + bullet_block(sense_lines(sense, ink)) + shifted(
            senses_text_after(items(sense.subsenses), Seq::empty(), ink.sub[1]),
        ),
    decreases sense, 0int,
{
    let lines = sense_lines(sense, ink);
    let below = senses_text_after(items(sense.subsenses), Seq::empty(), ink.sub[1]);
    lemma_sense_lines_end(sense, ink);
    match sense.subsenses {
        Some(subsenses) => {
            lemma_senses_add_whole_lines(subsenses@, lines, ink.sub[1]);
        },
        None => {
            assert(lines + below == lines);
        },
    }
    assert(sense_body(sense, ink) == lines + below);
    lemma_bullet_block_concat(lines, below);
    assert(buf + (bullet_block(lines) + shifted(below)) == buf + bullet_block(lines) + shifted(
        below,
    ));
}

/// A sense that holds one definition, the given subsenses, and nothing else.
pub open spec fn defined_sense(sense: Sense, definition: String, subsenses: Seq<Sense>) -> bool {
    &&& items(sense.definitions) == seq![definition]
    &&& items(sense.cross_reference_markers).len() == 0
    &&& items(sense.examples).len() == 0
    &&& items(sense.domains).len() == 0
    &&& items(sense.registers).len() == 0
    &&& items(sense.subsenses) == subsenses
}

/// A sense with one definition and one subsense with a definition of its own
/// shows the subsense one level below itself.
///
/// As text, the line of the subsense starts one indent unit to the right of the
/// line of the sense, bullet under definition. As HTML, the item of the subsense
/// stands in the list that the item of the sense holds.
pub proof fn lemma_defined_subsense_one_unit_deeper(
    sense: Sense,
    definition: String,
    subsense: Sense,
    subdefinition: String,
    buf: Seq<char>,
    ink: Ink,
)
    requires
        defined_sense(sense, definition, seq![subsense]),
        defined_sense(subsense, subdefinition, Seq::empty()),
    ensures
        sense.text_after(buf, ink) == buf + bullet() + indented(
            with_full_stop(definition@),
        ).push('\n') + indent_unit() + bullet() + indented(
            indented(with_full_stop(subdefinition@)),
        ).push('\n'),
        sense.html_after(buf) == buf + "<li>"@ + with_full_stop(definition@) + "<br>"@ + "<ul>"@
            + "<li>"@ + with_full_stop(subdefinition@) + "<br>"@ + "<ul>"@ + "</ul></li>"@
            + "</ul></li>"@,
{
    let outer = with_full_stop(definition@);
    let inner = with_full_stop(subdefinition@);
    let none = Seq::<char>::empty();
    reveal_with_fuel(seq_text_after, 2);
    reveal_with_fuel(seq_html_after, 2);
    reveal_with_fuel(senses_text_after, 2);
    reveal_with_fuel(senses_html_after, 2);

    // the subsense on its own
    let inner_ink = ink.sub[1].sub[0];
    assert(sense_body(subsense, inner_ink) == inner.push('\n')) by {
        assert(none + inner == inner);
    }
    lemma_bullet_block_of_lines(inner);
    let inner_block = bullet() + indented(inner).push('\n');

    // the sense around it
    let body = outer.push('\n') + inner_block;
    assert(sense_body(sense, ink) == body) by {
        assert(none + outer == outer);
        assert(seq![subsense].drop_last() == Seq::<Sense>::empty());
    }
    let inner_line = bullet() + indented(inner);
    assert(body == (outer.push('\n') + inner_line).push('\n'));
    lemma_bullet_block_of_lines(outer.push('\n') + inner_line);
    lemma_indented_concat(outer.push('\n'), inner_line);
    lemma_indented_line(outer);
    lemma_indented_concat(bullet(), indented(inner));
    assert(indented(bullet()) == bullet()) by {
        assert(!bullet().contains('\n'));
        lemma_indented_line(bullet());
    }
    assert(sense.text_after(buf, ink) == buf + bullet() + indented(outer).push('\n')
        + indent_unit() + bullet() + indented(indented(inner)).push('\n'));

    let opened = buf + "<li>"@ + outer + "<br>"@ + "<ul>"@;
    assert(sense.definitions.html_after(buf + "<li>"@) == buf + "<li>"@ + outer + "<br>"@);
    let inner_item = opened + "<li>"@ + inner + "<br>"@ + "<ul>"@ + "</ul></li>"@;
    assert(sense_html_after(subsense, opened) == inner_item) by {
        assert(subsense.definitions.html_after(opened + "<li>"@) == opened + "<li>"@ + inner
            + "<br>"@);
    }
    assert(senses_html_after(seq![subsense], opened) == inner_item) by {
        assert(seq![subsense].drop_last() == Seq::<Sense>::empty());
    }
    assert(sense.html_after(buf) == inner_item + "</ul></li>"@);
}

/// Whether two senses hold the same items, list by list: where one has an empty
/// list the other may have none.
pub open spec fn same_sense_items(a: Sense, b: Sense) -> bool {
    &&& items(a.definitions) == items(b.definitions)
    &&& items(a.examples) == items(b.examples)
    &&& items(a.subsenses) == items(b.subsenses)
    &&& items(a.domains) == items(b.domains)
    &&& items(a.cross_reference_markers) == items(b.cross_reference_markers)
    &&& items(a.registers) == items(b.registers)
}

/// Senses that hold the same items render alike, in both targets: nothing tells
/// a list that is absent from one that is empty.
pub proof fn lemma_sense_renders_its_items(a: Sense, b: Sense, buf: Seq<char>, ink: Ink)
    requires
        same_sense_items(a, b),
    ensures
        a.text_after(buf, ink) == b.text_after(buf, ink),
        a.html_after(buf) == b.html_after(buf),
{
    let none = Seq::<char>::empty();
    lemma_list_renders_its_items(a.domains, none, ink);
    lemma_list_renders_its_items(b.domains, none, ink);
    let classed = a.domains.text_after(none, ink);
    lemma_list_renders_its_items(a.registers, classed, ink);
    lemma_list_renders_its_items(b.registers, classed, ink);
    let tags = a.registers.text_after(classed, ink);
    let head = if tagged(a) {
        tags.push('\n')
    } else {
        tags
    };
    lemma_list_renders_its_items(a.definitions, head, ink);
    lemma_list_renders_its_items(b.definitions, head, ink);
    let defined = a.definitions.text_after(head, ink);
    lemma_list_renders_its_items(a.cross_reference_markers, defined, ink);
    lemma_list_renders_its_items(b.cross_reference_markers, defined, ink);
    let said = a.cross_reference_markers.text_after(defined, ink);
    lemma_list_renders_its_items(a.examples, said, ink.sub[0]);
    lemma_list_renders_its_items(b.examples, said, ink.sub[0]);
    assert(sense_lines(a, ink) == sense_lines(b, ink));
    assert(sense_body(a, ink) == senses_text_after(
        items(a.subsenses),
        sense_lines(a, ink),
        ink.sub[1],
    ));
    assert(sense_body(b, ink) == senses_text_after(
        items(b.subsenses),
        sense_lines(b, ink),
        ink.sub[1],
    ));

    if !bare_sense(a) {
        let opened = buf + "<li>"@;
        lemma_list_renders_its_items(a.domains, opened, ink);
        lemma_list_renders_its_items(b.domains, opened, ink);
        let classed = a.domains.html_after(opened);
        lemma_list_renders_its_items(a.registers, classed, ink);
        lemma_list_renders_its_items(b.registers, classed, ink);
        let tags = a.registers.html_after(classed);
        let head = if tagged(a) {
            tags + "<br>"@
        } else {
            tags
        };
        lemma_list_renders_its_items(a.definitions, head, ink);
        lemma_list_renders_its_items(b.definitions, head, ink);
        let defined = a.definitions.html_after(head);
        lemma_list_renders_its_items(a.cross_reference_markers, defined, ink);
        lemma_list_renders_its_items(b.cross_reference_markers, defined, ink);
        let said = a.cross_reference_markers.html_after(defined);
        lemma_list_renders_its_items(a.examples, said, ink);
        lemma_list_renders_its_items(b.examples, said, ink);
        let shown = a.examples.html_after(said);
        assert(sense_html_after(a, buf) == senses_html_after(items(a.subsenses), shown + "<ul>"@)
            + "</ul></li>"@);
        assert(sense_html_after(b, buf) == senses_html_after(items(b.subsenses), shown + "<ul>"@)
            + "</ul></li>"@);
    }
}

} // verus!
