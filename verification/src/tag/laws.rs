//! Laws of the encoding of tags: decoding is the inverse of encoding, and
//! looking ahead finds what decoding yields.

use crate::decode::Decode;
use crate::encode::Encode;
use crate::error::Error;
use crate::reader::{
    lemma_agrees_read_byte, lemma_mirrors_read_byte, steps_agree, steps_mirror, Cursor, Step,
};
use crate::tag::{
    spec_number_octets, spec_parse_number, spec_tag_length, Class, Tag,
};
use vstd::prelude::*;

verus! {

/// One step of reading a tag number: where the next octet can be read, it
/// adds seven bits to the number, and ends it or not by its high bit.
proof fn lemma_parse_number_step(c: Cursor, number: nat, left: nat, byte: u8)
    requires
        c.wf(),
        !c.failed,
        c.position < c.end,
        c.input[c.position as int] == byte,
        left > 0,
        number * 0x80 <= u16::MAX,
    ensures
        byte < 0x80 ==> spec_parse_number(c, number, left) == (Step {
            result: Ok::<u16, Error>((number * 0x80 + byte % 0x80) as u16),
            cursor: c.advance(1),
        }),
        byte >= 0x80 ==> spec_parse_number(c, number, left) == spec_parse_number(
            c.advance(1),
            number * 0x80 + (byte - 0x80) as nat,
            (left - 1) as nat,
        ),
{
    assert(c.read_byte().result == Ok::<u8, Error>(byte));
}

/// Where the octets at the position of a cursor are those that continue the
/// tag number `number`, reading the number yields it and leaves the cursor
/// behind them.
pub proof fn lemma_number_round_trip(number: u16, c: Cursor)
    requires
        c.wf(),
        !c.failed,
        number > 30,
        c.starts_with(spec_number_octets(number)),
    ensures
        spec_parse_number(c, 0, 3) == (Step {
            result: Ok::<u16, Error>(number),
            cursor: c.advance(spec_number_octets(number).len()),
        }),
{
    let octets = spec_number_octets(number);
    let p = c.position as int;
    assert forall|i: int| 0 <= i < octets.len() implies c.input[p + i] == octets[i] by {
        assert(c.input.subrange(p, p + octets.len())[i] == octets[i]);
    }
    lemma_parse_number_step(c, 0, 3, octets[0]);
    if number >= 0x80 {
        let c1 = c.advance(1);
        assert(c.input[p + 1] == octets[1]);
        if number < 0x4000 {
            let high = (number / 0x80) as nat;
            lemma_parse_number_step(c1, high, 2, octets[1]);
            assert(c1.advance(1) == c.advance(2));
        } else {
            let high = (number / 0x4000) as nat;
            let middle = ((number / 0x80) % 0x80) as nat;
            assert(high * 0x80 + middle == number / 0x80);
            lemma_parse_number_step(c1, high, 2, octets[1]);
            let c2 = c1.advance(1);
            assert(c.input[p + 2] == octets[2]);
            lemma_parse_number_step(c2, high * 0x80 + middle, 1, octets[2]);
            assert(c2.advance(1) == c.advance(3));
        }
    }
}

/// Reading a tag number comes to the same from two cursors of which one
/// has ahead what the other has, where it succeeds from the other.
pub proof fn lemma_parse_number_agrees(a: Cursor, b: Cursor, number: nat, left: nat)
    requires
        a.agrees_with(b),
        spec_parse_number(a, number, left).result is Ok,
    ensures
        steps_agree(a, b, spec_parse_number(a, number, left), spec_parse_number(b, number, left)),
    decreases left,
{
    lemma_agrees_read_byte(a, b);
    let byte = a.read_byte().result->Ok_0;
    if byte >= 0x80 {
        let next = (number * 0x80 + byte % 0x80) as nat;
        lemma_parse_number_agrees(a.advance(1), b.advance(1), next, (left - 1) as nat);
        let on_a = spec_parse_number(a.advance(1), next, (left - 1) as nat);
        let read = (on_a.cursor.position - a.advance(1).position) as nat;
        assert(a.advance(1).advance(read) == a.advance(1 + read));
        assert(b.advance(1).advance(read) == b.advance(1 + read));
    }
}

/// Decoding a tag comes to the same from two cursors of which one has ahead
/// what the other has, where it succeeds from the other.
pub proof fn lemma_tag_agrees(a: Cursor, b: Cursor)
    requires
        a.agrees_with(b),
        Tag::decode_spec(a).result is Ok,
    ensures
        steps_agree(a, b, Tag::decode_spec(a), Tag::decode_spec(b)),
{
    lemma_agrees_read_byte(a, b);
    let byte = a.read_byte().result->Ok_0;
    if byte >= 0x40 && byte % 0x20 == 0x1F {
        let a1 = a.advance(1);
        let b1 = b.advance(1);
        lemma_parse_number_agrees(a1, b1, 0, 3);
        let on_a = spec_parse_number(a1, 0, 3);
        let read = (on_a.cursor.position - a1.position) as nat;
        assert(a1.advance(read) == a.advance(1 + read));
        assert(b1.advance(read) == b.advance(1 + read));
    }
}

/// Reading a tag number comes to the same from a cursor and from one that
/// it mirrors, but for the shift.
pub proof fn lemma_parse_number_mirrors(a: Cursor, b: Cursor, number: nat, left: nat, budget: nat)
    requires
        a.mirrors(b, budget),
        left <= budget,
    ensures
        steps_mirror(
            a,
            b,
            spec_parse_number(a, number, left),
            spec_parse_number(b, number, left),
            budget,
        ),
        spec_parse_number(a, number, left).cursor.position <= a.position + left,
    decreases left,
{
    if left == 0 || number * 0x80 > u16::MAX {
        assert(a.advance(0) == a);
    } else {
        lemma_mirrors_read_byte(a, b, budget);
        let first = a.read_byte();
        if first.result is Ok {
            let byte = first.result->Ok_0;
            if byte >= 0x80 {
                let next = (number * 0x80 + byte % 0x80) as nat;
                let a1 = first.cursor;
                let b1 = b.read_byte().cursor;
                lemma_parse_number_mirrors(a1, b1, next, (left - 1) as nat, (budget - 1) as nat);
                let on_a = spec_parse_number(a1, next, (left - 1) as nat);
                let read = (on_a.cursor.position - a1.position) as nat;
                assert(a1 == a.advance(1));
                assert(a.advance(1).advance(read) == a.advance(1 + read));
            }
        }
    }
}

/// Decoding a tag comes to the same from a cursor and from one that it
/// mirrors, but for the shift.
pub proof fn lemma_tag_mirrors(a: Cursor, b: Cursor, budget: nat)
    requires
        a.mirrors(b, budget),
        budget >= Tag::MAX_SIZE,
    ensures
        steps_mirror(a, b, Tag::decode_spec(a), Tag::decode_spec(b), budget),
        Tag::decode_spec(a).cursor.position <= a.position + Tag::MAX_SIZE,
{
    lemma_mirrors_read_byte(a, b, budget);
    let first = a.read_byte();
    if first.result is Ok {
        let byte = first.result->Ok_0;
        let a1 = first.cursor;
        let b1 = b.read_byte().cursor;
        assert(a1 == a.advance(1));
        if byte >= 0x40 && byte % 0x20 == 0x1F {
            lemma_parse_number_mirrors(a1, b1, 0, 3, (budget - 1) as nat);
            let on_a = spec_parse_number(a1, 0, 3);
            let read = (on_a.cursor.position - a1.position) as nat;
            assert(a.advance(1).advance(read) == a.advance(1 + read));
        }
    }
}

/// Reading a tag number that fails marks a strict reader as failed, and a
/// reader that is marked stays so.
pub proof fn lemma_parse_number_fail_closed(c: Cursor, number: nat, left: nat)
    ensures
        c.strict && spec_parse_number(c, number, left).result is Err ==> spec_parse_number(
            c,
            number,
            left,
        ).cursor.failed,
        c.failed ==> spec_parse_number(c, number, left).result is Err && spec_parse_number(
            c,
            number,
            left,
        ).cursor.failed,
        spec_parse_number(c, number, left).cursor.strict == c.strict,
        !c.failed && spec_parse_number(c, number, left).result is Ok ==> !spec_parse_number(
            c,
            number,
            left,
        ).cursor.failed,
    decreases left,
{
    if !(left == 0 || number * 0x80 > u16::MAX) {
        let next = c.read_byte();
        if next.result is Ok {
            let byte = next.result->Ok_0;
            if byte >= 0x80 {
                lemma_parse_number_fail_closed(
                    next.cursor,
                    (number * 0x80 + byte % 0x80) as nat,
                    (left - 1) as nat,
                );
            }
        }
    }
}

/// Decoding a tag that fails marks a strict reader as failed, and on a
/// reader that is marked it fails and leaves the mark; decoding that
/// succeeds marks no reader.
pub proof fn lemma_tag_fail_closed(c: Cursor)
    ensures
        c.strict && Tag::decode_spec(c).result is Err ==> Tag::decode_spec(c).cursor.failed,
        c.failed ==> Tag::decode_spec(c).result is Err && Tag::decode_spec(c).cursor.failed,
        Tag::decode_spec(c).cursor.strict == c.strict,
        !c.failed && Tag::decode_spec(c).result is Ok ==> !Tag::decode_spec(c).cursor.failed,
{
    let first = c.read_byte();
    if first.result is Ok {
        lemma_parse_number_fail_closed(first.cursor, 0, 3);
    }
}

/// The window of a cursor, as an input of its own, has ahead what the
/// cursor has, as far as it goes.
pub proof fn lemma_window_agrees(c: Cursor, size: nat)
    requires
        c.wf(),
        !c.failed,
        size <= c.window().len(),
    ensures
        Cursor::over(c.window().take(size as int)).agrees_with(c),
{
    let a = Cursor::over(c.window().take(size as int));
    assert forall|k: nat| #[trigger] a.has_ahead(k) implies c.has_ahead(k) && c.ahead(k)
        == a.ahead(k) by {
        assert(c.window()[k as int] == c.ahead(k));
    }
}

/// Looking at the tag ahead finds the tag that decoding would yield.
pub proof fn lemma_peek_from_decode(c: Cursor, size: nat)
    requires
        c.wf(),
        !c.failed,
        Tag::spec_peek_from(c.window(), size) is Some,
    ensures
        Tag::decode_spec(c).result == Ok::<Tag, Error>(Tag::spec_peek_from(c.window(), size)->0),
    decreases Tag::MAX_SIZE + 1 - size,
{
    let a = Cursor::over(c.window().take(size as int));
    let step = Tag::decode_spec(a);
    if step.result is Ok && step.cursor.is_finished() {
        lemma_window_agrees(c, size);
        lemma_tag_agrees(a, c);
    } else {
        lemma_peek_from_decode(c, size + 1);
    }
}

/// Looking at the tag ahead finds the tag that decoding would yield: where
/// `Tag::peek` returns a tag, `Tag::decode` returns the same.
pub proof fn lemma_peek_decode(c: Cursor)
    requires
        c.wf(),
        Tag::spec_peek_optional(c) matches Ok(Some(_)),
    ensures
        Ok::<Option<Tag>, Error>(Tag::decode_spec(c).result.ok()) == Tag::spec_peek_optional(c),
{
    lemma_peek_from_decode(c, 1);
}

/// The encoding of a universal tag is the one octet that stands for it.
proof fn lemma_universal_octet(tag: Tag)
    requires
        tag.spec_class() == Class::Universal,
    ensures
        tag.encoding().len() == 1,
        tag.encoding()[0] < 0x40,
        Tag::universal(tag.encoding()[0]) == Some(tag),
{
}

/// The leading octet of the encoding of a tag of another class than the
/// universal gives the class, the form, and the number or the mark that
/// the number follows.
proof fn lemma_leading_octet(tag: Tag)
    requires
        tag.spec_class() != Class::Universal,
    ensures
        tag.encoding().len() == spec_tag_length(tag.spec_number().0),
        tag.encoding()[0] >= 0x40,
        (tag.encoding()[0] / 0x20) % 2 == 1 <==> tag.spec_is_constructed(),
        tag.spec_number().0 <= 30 ==> tag.encoding()[0] % 0x20 == tag.spec_number().0,
        tag.spec_number().0 > 30 ==> tag.encoding()[0] % 0x20 == 0x1F && tag.encoding().skip(1)
            == spec_number_octets(tag.spec_number().0),
        Tag::with_class_of(tag.encoding()[0], tag.spec_is_constructed(), tag.spec_number())
            == tag,
{
    let number = tag.spec_number().0;
    if number > 30 {
        assert(tag.encoding().skip(1) =~= spec_number_octets(number));
    }
}

/// Decoding is the inverse of encoding: where the octets at the position of
/// a cursor are the encoding of `tag`, decoding yields `tag` and leaves the
/// cursor behind them.
pub proof fn lemma_tag_round_trip(tag: Tag, c: Cursor)
    requires
        c.wf(),
        !c.failed,
        c.starts_with(tag.encoding()),
    ensures
        Tag::decode_spec(c) == (Step {
            result: Ok::<Tag, Error>(tag),
            cursor: c.advance(tag.encoding().len()),
        }),
{
    let octets = tag.encoding();
    let number = tag.spec_number().0;
    let p = c.position as int;
    if tag.spec_class() == Class::Universal {
        lemma_universal_octet(tag);
    } else {
        lemma_leading_octet(tag);
    }
    assert(c.input.subrange(p, p + octets.len())[0] == octets[0]);
    let first = c.read_byte();
    assert(first.result == Ok::<u8, Error>(octets[0]));
    assert(first.cursor == c.advance(1));
    if tag.spec_class() != Class::Universal && number > 30 {
        let rest = spec_number_octets(number);
        assert(octets.len() == 1 + rest.len());
        assert(first.cursor.input.subrange(p + 1, p + 1 + rest.len()) =~= rest) by {
            assert forall|i: int| 0 <= i < rest.len() implies c.input[p + 1 + i] == rest[i] by {
                assert(c.input.subrange(p, p + octets.len())[1 + i] == octets[1 + i]);
                assert(octets.skip(1)[i] == octets[1 + i]);
            }
        }
        lemma_number_round_trip(number, first.cursor);
        assert(first.cursor.advance(rest.len()) == c.advance(octets.len()));
    }
}

} // verus!
