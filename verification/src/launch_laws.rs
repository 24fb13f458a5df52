//! What is checked before a worker runs, bit by bit and line by line.

use crate::format::decimal_text;
use crate::format_laws::{decimal_value, digit_value, lemma_decimal_reads_back};
use crate::launch::{
    account_number, digits_value, execute_bit, first_name, has_name, line_mounts, mounted,
    root_owned, text_before, trimmed_end, trimmed_start, worker_safe, FileFacts,
};
use crate::text::{pieces, pieces_from, separates, white_space, with_piece, Separator};
use vstd::prelude::*;
use vstd::utf8::{
    decode_utf8, encode_utf8, encode_utf8_decode_utf8, encode_utf8_valid_utf8, valid_utf8,
};

verus! {

/// A profile is read only from a regular file of root that is no link, that neither its group nor
/// others can write, and that has no set-ID bit; every such file is taken.
pub proof fn lemma_profiles_belong_to_root(file: FileFacts)
    ensures
        root_owned(file) <==> (file.regular && !file.symlink && file.uid == 0 && file.mode & 0o002
            == 0 && file.mode & 0o020 == 0 && file.mode & 0o2000 == 0 && file.mode & 0o4000 == 0),
{
    let mode = file.mode;
    assert(mode & 0o6022 == 0 <==> mode & 0o002 == 0 && mode & 0o020 == 0 && mode & 0o2000 == 0
        && mode & 0o4000 == 0) by (bit_vector);
}

/// A program is run only from a regular file of root or of the account that is no link, that
/// others cannot write, that a group can write only where it is the account's, and that has no
/// set-ID bit; every such file is taken.
pub proof fn lemma_programs_are_safe(file: FileFacts, uid: u32, gid: u32)
    ensures
        worker_safe(file, uid, gid) <==> (file.regular && !file.symlink && (file.uid == 0
            || file.uid == uid) && file.mode & 0o002 == 0 && file.mode & 0o2000 == 0 && file.mode
            & 0o4000 == 0 && (file.mode & 0o020 == 0 || file.gid == gid)),
        file.uid == uid ==> execute_bit(file, uid, gid) == 64,
        file.uid != uid && file.gid == gid ==> execute_bit(file, uid, gid) == 8,
        file.uid != uid && file.gid != gid ==> execute_bit(file, uid, gid) == 1,
{
    let mode = file.mode;
    assert(mode & 0o6002 == 0 <==> mode & 0o002 == 0 && mode & 0o2000 == 0 && mode & 0o4000 == 0)
        by (bit_vector);
}

proof fn lemma_trim_front(front: Seq<char>, rest: Seq<char>)
    requires
        forall|i: int| 0 <= i < front.len() ==> white_space(#[trigger] front[i]),
        rest.len() > 0 ==> !white_space(rest[0]),
    ensures
        trimmed_start(front + rest) == rest,
    decreases front.len(),
{
    let whole = front + rest;
    if front.len() == 0 {
        assert(whole =~= rest);
    } else {
        assert(whole[0] == front[0]);
        let tail = front.skip(1);
        assert forall|i: int| 0 <= i < tail.len() implies white_space(#[trigger] tail[i]) by {
            assert(tail[i] == front[i + 1]);
        }
        assert(whole.skip(1) =~= tail + rest);
        lemma_trim_front(tail, rest);
    }
}

proof fn lemma_trim_back(rest: Seq<char>, back: Seq<char>)
    requires
        forall|i: int| 0 <= i < back.len() ==> white_space(#[trigger] back[i]),
        rest.len() > 0 ==> !white_space(rest.last()),
    ensures
        trimmed_end(rest + back) == rest,
    decreases back.len(),
{
    let whole = rest + back;
    if back.len() == 0 {
        assert(whole =~= rest);
    } else {
        assert(whole.last() == back.last());
        let init = back.drop_last();
        assert forall|i: int| 0 <= i < init.len() implies white_space(#[trigger] init[i]) by {
            assert(init[i] == back[i]);
        }
        assert(whole.drop_last() =~= rest + init);
        lemma_trim_back(rest, init);
    }
}

/// Digits behind those that made `value` have the value of all of them together.
proof fn lemma_digits_have_their_value(digits: Seq<char>, value: nat, all: Seq<char>)
    requires
        decimal_value(all) == value,
        forall|i: int| 0 <= i < digits.len() ==> '0' <= #[trigger] digits[i] <= '9',
        decimal_value(all + digits) <= u32::MAX,
        value <= decimal_value(all + digits),
    ensures
        digits_value(digits, value) == Some(decimal_value(all + digits) as nat),
    decreases digits.len(),
{
    if digits.len() == 0 {
        assert(all + digits =~= all);
    } else {
        let next = all.push(digits[0]);
        let rest = digits.skip(1);
        assert(next.drop_last() =~= all);
        assert(next + rest =~= all + digits);
        assert(decimal_value(next) == 10 * decimal_value(all) + digit_value(digits[0]));
        assert forall|i: int| 0 <= i < rest.len() implies '0' <= #[trigger] rest[i] <= '9' by {
            assert(rest[i] == digits[i + 1]);
        }
        assert('0' <= digits[0] <= '9');
        lemma_value_grows(next, rest);
        lemma_digits_have_their_value(rest, decimal_value(next) as nat, next);
    }
}

proof fn lemma_value_grows(front: Seq<char>, back: Seq<char>)
    requires
        decimal_value(front) >= 0,
        forall|i: int| 0 <= i < back.len() ==> '0' <= #[trigger] back[i] <= '9',
    ensures
        decimal_value(front) <= decimal_value(front + back),
    decreases back.len(),
{
    if back.len() == 0 {
        assert(front + back =~= front);
    } else {
        let init = back.drop_last();
        assert forall|i: int| 0 <= i < init.len() implies '0' <= #[trigger] init[i] <= '9' by {
            assert(init[i] == back[i]);
        }
        lemma_value_grows(front, init);
        assert((front + back).drop_last() =~= front + init);
        assert((front + back).last() == back.last());
        assert('0' <= back[back.len() - 1] <= '9');
    }
}

/// The system's answer about an account is read as the number in it, whatever white space goes
/// around.
pub proof fn lemma_account_number_reads_back(
    front: Seq<char>,
    number: nat,
    back: Seq<char>,
)
    requires
        number <= u32::MAX,
        forall|i: int| 0 <= i < front.len() ==> white_space(#[trigger] front[i]),
        forall|i: int| 0 <= i < back.len() ==> white_space(#[trigger] back[i]),
    ensures
        account_number(encode_utf8(front + decimal_text(number) + back)) == Some(number),
{
    let text = front + decimal_text(number) + back;
    let digits = decimal_text(number);
    encode_utf8_valid_utf8(text);
    encode_utf8_decode_utf8(text);
    lemma_decimal_reads_back(number);
    assert('0' <= digits[0] <= '9');
    assert('0' <= digits[digits.len() - 1] <= '9');
    assert(!white_space(digits[0]) && !white_space(digits.last()));
    let rest = digits + back;
    assert(text =~= front + rest);
    assert(rest[0] == digits[0]);
    lemma_trim_front(front, rest);
    lemma_trim_back(digits, back);
    assert(Seq::<char>::empty() + digits =~= digits);
    lemma_digits_have_their_value(digits, 0, Seq::<char>::empty());
}

/// What is no number is not read as one: between the white space stand digits only, with a plus
/// sign before them at most, and their value fits into 32 bits.
pub proof fn lemma_account_number_is_a_number(output: Seq<u8>)
    requires
        account_number(output) is Some,
    ensures
        ({
            let text = trimmed_end(trimmed_start(decode_utf8(output)));
            let digits = if text.len() > 0 && text[0] == '+' {
                text.skip(1)
            } else {
                text
            };
            &&& valid_utf8(output)
            &&& digits.len() > 0
            &&& forall|i: int| 0 <= i < digits.len() ==> '0' <= #[trigger] digits[i] <= '9'
            &&& account_number(output)->0 == decimal_value(digits)
            &&& account_number(output)->0 <= u32::MAX
        }),
{
    let text = trimmed_end(trimmed_start(decode_utf8(output)));
    let digits = if text.len() > 0 && text[0] == '+' {
        text.skip(1)
    } else {
        text
    };
    lemma_digits_are_digits(digits, 0, Seq::<char>::empty());
    assert(Seq::<char>::empty() + digits =~= digits);
}

proof fn lemma_digits_are_digits(digits: Seq<char>, value: nat, all: Seq<char>)
    requires
        digits_value(digits, value) is Some,
        decimal_value(all) == value,
    ensures
        forall|i: int| 0 <= i < digits.len() ==> '0' <= #[trigger] digits[i] <= '9',
        digits_value(digits, value)->0 == decimal_value(all + digits),
        digits_value(digits, value)->0 <= u32::MAX,
    decreases digits.len(),
{
    if digits.len() == 0 {
        assert(all + digits =~= all);
    } else {
        let next = all.push(digits[0]);
        let rest = digits.skip(1);
        assert(next.drop_last() =~= all);
        assert(next + rest =~= all + digits);
        lemma_digits_are_digits(
            rest,
            (10 * value + (digits[0] as nat - 48)) as nat,
            next,
        );
        assert forall|i: int| 0 <= i < digits.len() implies '0' <= #[trigger] digits[i] <= '9' by {
            if i > 0 {
                assert(digits[i] == rest[i - 1]);
            }
        }
    }
}

/// Texts are ordered by their first difference, and a beginning stands before the whole.
pub proof fn lemma_texts_are_ordered(a: Seq<char>, b: Seq<char>, k: int)
    requires
        0 <= k <= a.len(),
        k < b.len(),
        forall|i: int| 0 <= i < k ==> a[i] == b[i],
    ensures
        k == a.len() ==> text_before(a, b) && !text_before(b, a),
        k < a.len() && a[k] < b[k] ==> text_before(a, b) && !text_before(b, a),
    decreases k,
{
    if k > 0 {
        let x = a.skip(1);
        let y = b.skip(1);
        assert forall|i: int| 0 <= i < k - 1 implies x[i] == y[i] by {
            assert(a[i + 1] == b[i + 1]);
        }
        assert(a[0] == b[0]);
        lemma_texts_are_ordered(x, y, k - 1);
        if k < a.len() {
            assert(x[k - 1] == a[k] && y[k - 1] == b[k]);
        }
    }
}

/// The controller that is chosen is there, and no other stands before it.
pub proof fn lemma_first_name_comes_first(names: Seq<String>, name: Seq<char>)
    ensures
        first_name(names, name) <==> (exists|k: int|
            0 <= k < names.len() && (#[trigger] names[k])@ == name) && forall|i: int|
            0 <= i < names.len() ==> (#[trigger] names[i])@ == name || text_before(name, names[i]@),
        has_name(names, name) <==> exists|k: int|
            0 <= k < names.len() && (#[trigger] names[k])@ == name,
{
    assert forall|i: int| 0 <= i < names.len() implies (!text_before((#[trigger] names[i])@, name)
        <==> names[i]@ == name || text_before(name, names[i]@)) by {
        let other = names[i]@;
        if !text_before(other, name) && !text_before(name, other) {
            crate::launch::lemma_text_order_total(other, name);
        }
        if text_before(other, name) && (other == name || text_before(name, other)) {
            if other != name {
                crate::launch::lemma_text_order_transitive(other, name, other);
            }
            lemma_nothing_before_itself(other);
        }
    }
    if first_name(names, name) {
        assert forall|i: int| 0 <= i < names.len() implies (#[trigger] names[i])@ == name
            || text_before(name, names[i]@) by {
            assert(!text_before(names[i]@, name));
        }
    }
    if forall|i: int|
        0 <= i < names.len() ==> (#[trigger] names[i])@ == name || text_before(name, names[i]@) {
        assert forall|i: int| 0 <= i < names.len() implies !text_before(
            (#[trigger] names[i])@,
            name,
        ) by {
            assert(names[i]@ == name || text_before(name, names[i]@));
        }
    }
}

proof fn lemma_nothing_before_itself(text: Seq<char>)
    ensures
        !text_before(text, text),
    decreases text.len(),
{
    if text.len() > 0 {
        lemma_nothing_before_itself(text.skip(1));
    }
}

/// Whether a text has no character that parts it.
pub open spec fn unparted(text: Seq<char>, separator: Separator) -> bool {
    forall|i: int| 0 <= i < text.len() ==> !separates(separator, #[trigger] text[i])
}

proof fn lemma_rest_of_piece(
    rest: Seq<char>,
    tail: Seq<char>,
    separator: Separator,
    piece: Seq<char>,
    found: Seq<Seq<char>>,
)
    requires
        unparted(rest, separator),
    ensures
        pieces_from(rest + tail, separator, piece, found) == pieces_from(
            tail,
            separator,
            piece + rest,
            found,
        ),
    decreases rest.len(),
{
    if rest.len() == 0 {
        assert(rest + tail =~= tail);
        assert(piece + rest =~= piece);
    } else {
        let whole = rest + tail;
        assert(whole[0] == rest[0]);
        assert(!separates(separator, rest[0]));
        assert(whole.skip(1) =~= rest.skip(1) + tail);
        assert forall|i: int| 0 <= i < rest.skip(1).len() implies !separates(
            separator,
            #[trigger] rest.skip(1)[i],
        ) by {
            assert(rest.skip(1)[i] == rest[i + 1]);
        }
        lemma_rest_of_piece(rest.skip(1), tail, separator, piece.push(rest[0]), found);
        assert(piece.push(rest[0]) + rest.skip(1) =~= piece + rest);
    }
}

/// Pieces are found one behind the other.
proof fn lemma_pieces_accumulate(
    rest: Seq<char>,
    separator: Separator,
    piece: Seq<char>,
    found: Seq<Seq<char>>,
)
    ensures
        pieces_from(rest, separator, piece, found) == found + pieces_from(
            rest,
            separator,
            piece,
            seq![],
        ),
    decreases rest.len(),
{
    if rest.len() == 0 {
        assert(with_piece(found, piece) =~= found + with_piece(seq![], piece));
    } else if separates(separator, rest[0]) {
        let tail = rest.skip(1);
        lemma_pieces_accumulate(tail, separator, seq![], with_piece(found, piece));
        lemma_pieces_accumulate(tail, separator, seq![], with_piece(seq![], piece));
        assert(with_piece(found, piece) =~= found + with_piece(seq![], piece));
        assert(pieces_from(rest, separator, piece, found) =~= found + pieces_from(
            rest,
            separator,
            piece,
            seq![],
        ));
    } else {
        lemma_pieces_accumulate(rest.skip(1), separator, piece.push(rest[0]), found);
    }
}

proof fn lemma_pieces_split(
    front: Seq<char>,
    parting: char,
    back: Seq<char>,
    separator: Separator,
    piece: Seq<char>,
    found: Seq<Seq<char>>,
)
    requires
        separates(separator, parting),
    ensures
        pieces_from(front + seq![parting] + back, separator, piece, found) == pieces_from(
            back,
            separator,
            seq![],
            pieces_from(front, separator, piece, found),
        ),
    decreases front.len(),
{
    let whole = front + seq![parting] + back;
    if front.len() == 0 {
        assert(whole[0] == parting);
        assert(whole.skip(1) =~= back);
    } else {
        let rest = front.skip(1);
        assert(whole[0] == front[0]);
        assert(whole.skip(1) =~= rest + seq![parting] + back);
        if separates(separator, front[0]) {
            lemma_pieces_split(rest, parting, back, separator, seq![], with_piece(found, piece));
        } else {
            lemma_pieces_split(rest, parting, back, separator, piece.push(front[0]), found);
        }
    }
}

/// A parting character ends one piece and begins the next.
pub proof fn lemma_pieces_join(
    front: Seq<char>,
    parting: char,
    back: Seq<char>,
    separator: Separator,
)
    requires
        separates(separator, parting),
    ensures
        pieces(front + seq![parting] + back, separator) == pieces(front, separator) + pieces(
            back,
            separator,
        ),
{
    lemma_pieces_split(front, parting, back, separator, seq![], seq![]);
    lemma_pieces_accumulate(back, separator, seq![], pieces(front, separator));
}

/// A text without a parting character is one piece, or none where it is empty.
pub proof fn lemma_one_piece(text: Seq<char>, separator: Separator)
    requires
        unparted(text, separator),
    ensures
        text.len() > 0 ==> pieces(text, separator) == seq![text],
        text.len() == 0 ==> pieces(text, separator) == Seq::<Seq<char>>::empty(),
{
    let tail = Seq::<char>::empty();
    lemma_rest_of_piece(text, tail, separator, seq![], seq![]);
    assert(text + tail =~= text);
    assert(Seq::<char>::empty() + text =~= text);
    assert(Seq::<Seq<char>>::empty().push(text) =~= seq![text]);
}

/// Which characters part lines, and which part the fields of a line.
pub proof fn lemma_parting_characters(c: char)
    ensures
        separates(Separator::Newline, c) <==> c == '\n',
        separates(Separator::WhiteSpace, c) <==> white_space(c),
        white_space(' ') && white_space('\t') && white_space('\n') && white_space('\r'),
        '!' <= c <= '~' ==> !white_space(c),
{
}

/// A file system is mounted at a path where a line of the mount table has the path as its second
/// field and the file system as its third, and nowhere else.
#[verifier::rlimit(60)]
pub proof fn lemma_mount_lines(
    before: Seq<char>,
    source: Seq<char>,
    path: Seq<char>,
    kind: Seq<char>,
    options: Seq<char>,
    after: Seq<char>,
    target: Seq<char>,
    filesystem: Seq<char>,
)
    requires
        source.len() > 0 && path.len() > 0 && kind.len() > 0,
        unparted(source, Separator::WhiteSpace),
        unparted(path, Separator::WhiteSpace),
        unparted(kind, Separator::WhiteSpace),
        unparted(options, Separator::Newline),
    ensures
        ({
            let line = source + seq![' '] + path + seq![' '] + kind + seq![' '] + options;
            let table = before + seq!['\n'] + line + seq!['\n'] + after;
            mounted(table, target, filesystem) <==> (path == target && kind == filesystem)
                || mounted(before, target, filesystem) || mounted(after, target, filesystem)
        }),
{
    let line = source + seq![' '] + path + seq![' '] + kind + seq![' '] + options;
    let head = before + seq!['\n'] + line;
    let table = before + seq!['\n'] + line + seq!['\n'] + after;
    lemma_parting_characters(' ');
    // The line.
    assert(unparted(line, Separator::Newline)) by {
        assert forall|i: int| 0 <= i < line.len() implies !separates(
            Separator::Newline,
            #[trigger] line[i],
        ) by {
            lemma_parting_characters(line[i]);
            let a = source.len() as int;
            let b = a + 1 + path.len();
            let c = b + 1 + kind.len();
            if i < a {
                assert(line[i] == source[i]);
                assert(!separates(Separator::WhiteSpace, source[i]));
            } else if a < i && i < b {
                assert(line[i] == path[i - a - 1]);
                assert(!separates(Separator::WhiteSpace, path[i - a - 1]));
            } else if b < i && i < c {
                assert(line[i] == kind[i - b - 1]);
                assert(!separates(Separator::WhiteSpace, kind[i - b - 1]));
            } else if i > c {
                assert(line[i] == options[i - c - 1]);
            }
        }
    }
    lemma_one_piece(line, Separator::Newline);
    lemma_pieces_join(before, '\n', line, Separator::Newline);
    lemma_pieces_join(head, '\n', after, Separator::Newline);
    let lines = pieces(table, Separator::Newline);
    let first = pieces(before, Separator::Newline);
    let last = pieces(after, Separator::Newline);
    assert(lines == first + seq![line] + last);
    // Its fields.
    let one = source + seq![' '] + path;
    let two = one + seq![' '] + kind;
    lemma_pieces_join(source, ' ', path, Separator::WhiteSpace);
    lemma_pieces_join(one, ' ', kind, Separator::WhiteSpace);
    lemma_pieces_join(two, ' ', options, Separator::WhiteSpace);
    lemma_one_piece(source, Separator::WhiteSpace);
    lemma_one_piece(path, Separator::WhiteSpace);
    lemma_one_piece(kind, Separator::WhiteSpace);
    assert(line =~= two + seq![' '] + options);
    let fields = pieces(line, Separator::WhiteSpace);
    assert(fields[1] == path && fields[2] == kind && fields.len() >= 3);
    let n = first.len() as int;
    assert(lines[n] == line);
    if mounted(before, target, filesystem) {
        let i = choose|i: int|
            0 <= i < first.len() && line_mounts(#[trigger] first[i], target, filesystem);
        assert(lines[i] == first[i]);
    }
    if mounted(after, target, filesystem) {
        let i = choose|i: int|
            0 <= i < last.len() && line_mounts(#[trigger] last[i], target, filesystem);
        assert(lines[n + 1 + i] == last[i]);
    }
    if path == target && kind == filesystem {
        assert(line_mounts(lines[n], target, filesystem));
    }
    if mounted(table, target, filesystem) {
        let i = choose|i: int|
            0 <= i < lines.len() && line_mounts(#[trigger] lines[i], target, filesystem);
        if i < n {
            assert(first[i] == lines[i]);
        } else if i > n {
            assert(last[i - n - 1] == lines[i]);
        }
    }
}

} // verus!
