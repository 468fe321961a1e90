//! Functionality for translating asset names into UUIDs from the
//! look-up database.
//!
//! The database is text with one `name=uuid` entry per line; empty lines are
//! skipped. The resulting map only has entries for names that are unique: if
//! two lines share the same name, no entry with such name is present.

use vstd::prelude::*;

verus! {

/// The value of a hexadecimal digit in either case, or `None` for any other
/// character.
pub open spec fn hex_value(c: char) -> Option<int> {
    if '0' <= c && c <= '9' {
        Some(c as int - '0' as int)
    } else if 'a' <= c && c <= 'f' {
        Some(c as int - 'a' as int + 10)
    } else if 'A' <= c && c <= 'F' {
        Some(c as int - 'A' as int + 10)
    } else {
        None
    }
}

/// The number written by the hexadecimal digits `digits`, most significant
/// first.
pub open spec fn hex_number(digits: Seq<char>) -> int
    decreases digits.len(),
{
    if digits.len() == 0 {
        0
    } else {
        hex_number(digits.drop_last()) * 16 + hex_value(digits.last())->0
    }
}

/// 32 hexadecimal digits, nothing else.
pub open spec fn is_simple_uuid(text: Seq<char>) -> bool {
    text.len() == 32 && forall|i: int| 0 <= i < 32 ==> #[trigger] hex_value(text[i]) is Some
}

/// Groups of 8, 4, 4, 4 and 12 hexadecimal digits joined by hyphens.
pub open spec fn is_hyphenated_uuid(text: Seq<char>) -> bool {
    &&& text.len() == 36
    &&& forall|i: int|
        0 <= i < 36 ==> if i == 8 || i == 13 || i == 18 || i == 23 {
            text[i] == '-'
        } else {
            #[trigger] hex_value(text[i]) is Some
        }
}

/// The hexadecimal digits of a hyphenated UUID, without its hyphens.
pub open spec fn hyphenated_digits(text: Seq<char>) -> Seq<char> {
    text.subrange(0, 8) + text.subrange(9, 13) + text.subrange(14, 18) + text.subrange(19, 23)
        + text.subrange(24, 36)
}

/// The prefix of a UUID's URN form.
pub open spec fn urn_prefix() -> Seq<char> {
    seq!['u', 'r', 'n', ':', 'u', 'u', 'i', 'd', ':']
}

/// The number that `uuid::Uuid::parse_str` gives for `text`: the forms it
/// accepts are 32 hexadecimal digits, the hyphenated form, and the hyphenated
/// form behind `urn:uuid:`; digits of either case give the number they write,
/// most significant first. Any other text is rejected.
pub open spec fn parsed_uuid(text: Seq<char>) -> Option<u128> {
    if is_simple_uuid(text) {
        Some(hex_number(text) as u128)
    } else if is_hyphenated_uuid(text) {
        Some(hex_number(hyphenated_digits(text)) as u128)
    } else if text.len() == 45 && text.subrange(0, 9) == urn_prefix() && is_hyphenated_uuid(
        text.subrange(9, 45),
    ) {
        Some(hex_number(hyphenated_digits(text.subrange(9, 45))) as u128)
    } else {
        None
    }
}

/// Calls `uuid::Uuid::parse_str` and turns the parsed UUID into its 128-bit
/// number (`Uuid::as_u128`). The crate reads the digits in pairs into the
/// bytes of the UUID, most significant first, and `as_u128` joins the bytes in
/// the same order; it accepts exactly the forms `parsed_uuid` lists (its
/// length check counts bytes, and a text with a non-ASCII character holds a
/// byte that is neither a digit nor a hyphen).
#[verifier::external_body]
fn parse_uuid(text: &str) -> (r: Option<u128>)
    ensures
        r == parsed_uuid(text@),
{
    match uuid::Uuid::parse_str(text) {
        Ok(u) => Some(u.as_u128()),
        Err(_) => None,
    }
}

/// Calls `String::push`, which appends one character to the string.
#[verifier::external_body]
fn push_char(s: &mut String, c: char)
    ensures
        final(s)@ == old(s)@.push(c),
{
    s.push(c);
}

/// The text split at every `'\n'` (as `str::split('\n')` does): an empty text
/// is one empty line, and a trailing newline ends with an empty line.
pub open spec fn split_lines(text: Seq<char>) -> Seq<Seq<char>>
    decreases text.len(),
{
    if text.len() == 0 {
        seq![Seq::<char>::empty()]
    } else {
        let init = split_lines(text.drop_last());
        if text.last() == '\n' {
            init.push(Seq::<char>::empty())
        } else {
            init.update(init.len() - 1, init.last().push(text.last()))
        }
    }
}

/// `p` is the position of the first `'='` of the line.
pub open spec fn separator_at(line: Seq<char>, p: int) -> bool {
    &&& 0 <= p < line.len()
    &&& line[p] == '='
    &&& forall|j: int| 0 <= j < p ==> line[j] != '='
}

/// Whether the line holds a `'='`.
pub open spec fn has_separator(line: Seq<char>) -> bool {
    line.contains('=')
}

/// Position of the first `'='` of the line.
pub open spec fn separator_index(line: Seq<char>) -> int {
    choose|p: int| separator_at(line, p)
}

/// The name of an entry line: everything before its first `'='`.
pub open spec fn line_name(line: Seq<char>) -> Seq<char> {
    line.take(separator_index(line))
}

/// The UUID text of an entry line: everything after its first `'='`.
pub open spec fn line_value(line: Seq<char>) -> Seq<char> {
    line.skip(separator_index(line) + 1)
}

/// Line `i` exists and is not empty (empty lines are skipped).
pub open spec fn is_entry(lines: Seq<Seq<char>>, i: int) -> bool {
    0 <= i < lines.len() && lines[i].len() > 0
}

/// Line `i` is an entry with a separator whose name is `name`.
pub open spec fn names_line(lines: Seq<Seq<char>>, i: int, name: Seq<char>) -> bool {
    &&& is_entry(lines, i)
    &&& has_separator(lines[i])
    &&& line_name(lines[i]) == name
}

/// Line `i` is the first entry line with its name.
pub open spec fn first_with_name(lines: Seq<Seq<char>>, i: int) -> bool {
    &&& is_entry(lines, i)
    &&& has_separator(lines[i])
    &&& forall|j: int| 0 <= j < i ==> !names_line(lines, j, line_name(lines[i]))
}

/// Line `i` makes the database invalid: it has no `'='`, or it is the first
/// line with its name and its UUID text does not parse.
pub open spec fn line_fails(lines: Seq<Seq<char>>, i: int) -> bool {
    &&& is_entry(lines, i)
    &&& (!has_separator(lines[i]) || (first_with_name(lines, i) && parsed_uuid(
        line_value(lines[i]),
    ) is None))
}

/// Line `i` is the first line that makes the database invalid.
pub open spec fn first_failure(lines: Seq<Seq<char>>, i: int) -> bool {
    &&& line_fails(lines, i)
    &&& forall|j: int| 0 <= j < i ==> !line_fails(lines, j)
}

/// Exactly one line names `name`.
pub open spec fn unique_name(lines: Seq<Seq<char>>, name: Seq<char>) -> bool {
    exists|i: int|
        #![trigger names_line(lines, i, name)]
        names_line(lines, i, name) && forall|j: int| j != i ==> !names_line(lines, j, name)
}

/// Why a look-up database was refused; the number is the index of the
/// offending line, counting from zero and counting empty lines.
#[derive(Clone, Copy, Debug, PartialEq, Eq)]
pub enum LookupError {
    /// The line has no `=` character.
    MissingSeparator(usize),
    /// The first line with this name holds text that is not a UUID.
    InvalidUuid(usize),
}

/// Translation table from asset names to UUIDs (as 128-bit numbers).
pub struct LookupMap {
    names: Vec<String>,
    uuids: Vec<u128>,
}

/// The texts of a sequence of strings.
pub open spec fn texts(v: Seq<String>) -> Seq<Seq<char>> {
    v.map_values(|s: String| s@)
}

impl LookupMap {
    #[verifier::type_invariant]
    spec fn well_formed(self) -> bool {
        &&& self.names@.len() == self.uuids@.len()
        &&& texts(self.names@).no_duplicates()
    }
}

impl View for LookupMap {
    type V = Map<Seq<char>, u128>;

    closed spec fn view(&self) -> Map<Seq<char>, u128> {
        let ns = texts(self.names@);
        Map::new(|k: Seq<char>| ns.contains(k), |k: Seq<char>| self.uuids@[ns.index_of(k)])
    }
}

/// What is known of one slot of the bookkeeping after `count` lines: the
/// first line with its name, the UUID of that line, and whether another line
/// had the same name.
spec fn entry_ok(
    lines: Seq<Seq<char>>,
    count: int,
    names: Seq<Seq<char>>,
    uuids: Seq<u128>,
    dup: Seq<bool>,
    origin: Seq<int>,
    e: int,
) -> bool {
    &&& 0 <= origin[e] < count
    &&& first_with_name(lines, origin[e])
    &&& line_name(lines[origin[e]]) == names[e]
    &&& parsed_uuid(line_value(lines[origin[e]])) == Some(uuids[e])
    &&& (dup[e] <==> exists|l: int|
        #![trigger names_line(lines, l, names[e])]
        0 <= l < count && l != origin[e] && names_line(lines, l, names[e]))
}

/// Private bookkeeping while the database is read: one slot per distinct name
/// seen so far, whether the name was seen again, and the line it came from.
spec fn entries_inv(
    lines: Seq<Seq<char>>,
    count: int,
    names: Seq<Seq<char>>,
    uuids: Seq<u128>,
    dup: Seq<bool>,
    origin: Seq<int>,
) -> bool {
    &&& 0 <= count <= lines.len()
    &&& names.len() == uuids.len()
    &&& names.len() == dup.len()
    &&& names.len() == origin.len()
    &&& names.no_duplicates()
    &&& forall|e: int|
        0 <= e < names.len() ==> #[trigger] entry_ok(lines, count, names, uuids, dup, origin, e)
    &&& forall|l: int| #![trigger lines[l]] 0 <= l < count ==> !line_fails(lines, l)
    &&& forall|l: int|
        #![trigger lines[l]]
        0 <= l < count && is_entry(lines, l) ==> has_separator(lines[l]) && names.contains(
            line_name(lines[l]),
        )
}

proof fn lemma_split_lines_len(text: Seq<char>)
    ensures
        split_lines(text).len() >= 1,
    decreases text.len(),
{
    if text.len() > 0 {
        lemma_split_lines_len(text.drop_last());
    }
}

proof fn lemma_split_lines_bound(text: Seq<char>)
    ensures
        split_lines(text).len() <= text.len() + 1,
    decreases text.len(),
{
    if text.len() > 0 {
        lemma_split_lines_bound(text.drop_last());
        lemma_split_lines_len(text.drop_last());
    }
}

proof fn lemma_split_lines_step(text: Seq<char>, i: int)
    requires
        0 <= i < text.len(),
    ensures
        text[i] == '\n' ==> split_lines(text.take(i + 1)) == split_lines(text.take(i)).push(
            Seq::<char>::empty(),
        ),
        text[i] != '\n' ==> split_lines(text.take(i + 1)) == split_lines(text.take(i)).update(
            split_lines(text.take(i)).len() - 1,
            split_lines(text.take(i)).last().push(text[i]),
        ),
{
    assert(text.take(i + 1).drop_last() =~= text.take(i));
    assert(text.take(i + 1).last() == text[i]);
}

/// The lines that are complete in a prefix of the text are lines of the text.
proof fn lemma_split_lines_prefix(text: Seq<char>, i: int)
    requires
        0 <= i <= text.len(),
    ensures
        split_lines(text.take(i)).len() <= split_lines(text).len(),
        forall|l: int|
            0 <= l < split_lines(text.take(i)).len() - 1 ==> split_lines(text)[l] == split_lines(
                text.take(i),
            )[l],
    decreases text.len() - i,
{
    if i == text.len() {
        assert(text.take(i) =~= text);
    } else {
        lemma_split_lines_prefix(text, i + 1);
        lemma_split_lines_step(text, i);
        lemma_split_lines_len(text.take(i));
    }
}

proof fn lemma_separator_unique(line: Seq<char>, p: int)
    requires
        separator_at(line, p),
    ensures
        separator_index(line) == p,
        has_separator(line),
        line_name(line) == line.take(p),
        line_value(line) == line.skip(p + 1),
{
    let q = separator_index(line);
    assert(separator_at(line, q));
    if q < p {
        assert(line[q] != '=');
    }
    if p < q {
        assert(line[p] != '=');
    }
}

/// Position of the first `'='` in the line, if any.
fn find_separator(line: &Vec<char>) -> (r: Option<usize>)
    ensures
        match r {
            Some(p) => separator_at(line@, p as int),
            None => !has_separator(line@),
        },
{
    let mut j: usize = 0;
    while j < line.len()
        invariant
            j <= line@.len(),
            forall|k: int| 0 <= k < j ==> line@[k] != '=',
        decreases line@.len() - j,
    {
        if line[j] == '=' {
            return Some(j);
        }
        j = j + 1;
    }
    None
}

/// The string made of `chars[start..end]`.
fn string_from_chars(chars: &Vec<char>, start: usize, end: usize) -> (s: String)
    requires
        start <= end <= chars@.len(),
    ensures
        s@ == chars@.subrange(start as int, end as int),
{
    let mut s = String::new();
    let mut j = start;
    while j < end
        invariant
            start <= j <= end,
            end <= chars@.len(),
            s@ == chars@.subrange(start as int, j as int),
        decreases end - j,
    {
        push_char(&mut s, chars[j]);
        assert(chars@.subrange(start as int, j + 1) =~= chars@.subrange(start as int, j as int).push(
            chars@[j as int],
        ));
        j = j + 1;
    }
    s
}

/// Position of `name` among `names`, comparing texts.
fn position_of(names: &Vec<String>, name: &String) -> (r: Option<usize>)
    ensures
        match r {
            Some(e) => e < names@.len() && names@[e as int]@ == name@,
            None => !texts(names@).contains(name@),
        },
{
    let mut e: usize = 0;
    while e < names.len()
        invariant
            e <= names@.len(),
            forall|f: int| 0 <= f < e ==> names@[f]@ != name@,
        decreases names@.len() - e,
    {
        if names[e] == *name {
            return Some(e);
        }
        e = e + 1;
    }
    proof {
        if texts(names@).contains(name@) {
            let f = choose|f: int| 0 <= f < texts(names@).len() && texts(names@)[f] == name@;
            assert(names@[f]@ == name@);
        }
    }
    None
}

/// Reads line number `line_no` (held in `line`) into the bookkeeping.
fn read_line(
    line: &Vec<char>,
    line_no: usize,
    names: &mut Vec<String>,
    uuids: &mut Vec<u128>,
    dup: &mut Vec<bool>,
    Ghost(lines): Ghost<Seq<Seq<char>>>,
    Ghost(origin): Ghost<Seq<int>>,
) -> (r: (Result<(), LookupError>, Ghost<Seq<int>>))
    requires
        line_no < lines.len(),
        lines[line_no as int] == line@,
        entries_inv(lines, line_no as int, texts(old(names)@), old(uuids)@, old(dup)@, origin),
    ensures
        match r.0 {
            Ok(_) => entries_inv(
                lines,
                line_no + 1,
                texts(final(names)@),
                final(uuids)@,
                final(dup)@,
                r.1@,
            ),
            Err(LookupError::MissingSeparator(l)) => l == line_no && first_failure(lines, l as int)
                && !has_separator(lines[l as int]),
            Err(LookupError::InvalidUuid(l)) => l == line_no && first_failure(lines, l as int)
                && has_separator(lines[l as int]),
        },
{
    let ghost l = line_no as int;
    let ghost old_names = texts(names@);
    if line.len() == 0 {
        proof {
            lemma_inv_skip(lines, l, old_names, uuids@, dup@, origin);
        }
        return (Ok(()), Ghost(origin));
    }
    let p = match find_separator(line) {
        Some(p) => p,
        None => {
            return (Err(LookupError::MissingSeparator(line_no)), Ghost(origin));
        },
    };
    proof {
        lemma_separator_unique(line@, p as int);
    }
    let name = string_from_chars(line, 0, p);
    let value = string_from_chars(line, p + 1, line.len());
    assert(name@ =~= line_name(lines[l]));
    assert(value@ =~= line_value(lines[l]));
    match position_of(names, &name) {
        Some(e) => {
            let ghost old_dup = dup@;
            dup[e] = true;
            proof {
                assert(old_names[e as int] == name@);
                lemma_inv_repeat(lines, l, old_names, uuids@, old_dup, origin, e as int);
                assert(dup@ == old_dup.update(e as int, true));
                assert(texts(names@) == old_names);
            }
            (Ok(()), Ghost(origin))
        },
        None => {
            proof {
                lemma_new_name_is_first(lines, l, old_names, uuids@, dup@, origin);
            }
            match parse_uuid(value.as_str()) {
                None => (Err(LookupError::InvalidUuid(line_no)), Ghost(origin)),
                Some(u) => {
                    let ghost old_uuids = uuids@;
                    let ghost old_dup = dup@;
                    names.push(name);
                    uuids.push(u);
                    dup.push(false);
                    proof {
                        lemma_inv_new(lines, l, old_names, old_uuids, old_dup, origin, u);
                        assert(texts(names@) =~= old_names.push(line_name(lines[l])));
                    }
                    (Ok(()), Ghost(origin.push(l)))
                },
            }
        },
    }
}

proof fn lemma_inv_skip(
    lines: Seq<Seq<char>>,
    count: int,
    names: Seq<Seq<char>>,
    uuids: Seq<u128>,
    dup: Seq<bool>,
    origin: Seq<int>,
)
    requires
        entries_inv(lines, count, names, uuids, dup, origin),
        count < lines.len(),
        !is_entry(lines, count),
    ensures
        entries_inv(lines, count + 1, names, uuids, dup, origin),
{
    assert forall|e: int| 0 <= e < names.len() implies #[trigger] entry_ok(
        lines,
        count + 1,
        names,
        uuids,
        dup,
        origin,
        e,
    ) by {
        assert(entry_ok(lines, count, names, uuids, dup, origin, e));
        if dup[e] {
            let m = choose|m: int|
                #![trigger names_line(lines, m, names[e])]
                0 <= m < count && m != origin[e] && names_line(lines, m, names[e]);
            assert(0 <= m < count + 1 && m != origin[e] && names_line(lines, m, names[e]));
        }
        if exists|m: int|
            #![trigger names_line(lines, m, names[e])]
            0 <= m < count + 1 && m != origin[e] && names_line(lines, m, names[e]) {
            let m = choose|m: int|
                #![trigger names_line(lines, m, names[e])]
                0 <= m < count + 1 && m != origin[e] && names_line(lines, m, names[e]);
            assert(m != count);
            assert(0 <= m < count && m != origin[e] && names_line(lines, m, names[e]));
        }
    }
    assert forall|m: int| #![trigger lines[m]] 0 <= m < count + 1 implies !line_fails(lines, m) by {
        if m < count {
            assert(lines[m] == lines[m]);
        }
    }
    assert forall|m: int|
        #![trigger lines[m]]
        0 <= m < count + 1 && is_entry(lines, m) implies has_separator(lines[m])
        && names.contains(line_name(lines[m])) by {
        assert(lines[m] == lines[m]);
    }
}

proof fn lemma_inv_repeat(
    lines: Seq<Seq<char>>,
    count: int,
    names: Seq<Seq<char>>,
    uuids: Seq<u128>,
    dup: Seq<bool>,
    origin: Seq<int>,
    e: int,
)
    requires
        entries_inv(lines, count, names, uuids, dup, origin),
        count < lines.len(),
        0 <= e < names.len(),
        names_line(lines, count, names[e]),
    ensures
        !first_with_name(lines, count),
        !line_fails(lines, count),
        entries_inv(lines, count + 1, names, uuids, dup.update(e, true), origin),
{
    let nd = dup.update(e, true);
    assert(entry_ok(lines, count, names, uuids, dup, origin, e));
    assert(names_line(lines, origin[e], line_name(lines[count])));
    assert forall|f: int| 0 <= f < names.len() implies #[trigger] entry_ok(
        lines,
        count + 1,
        names,
        uuids,
        nd,
        origin,
        f,
    ) by {
        assert(entry_ok(lines, count, names, uuids, dup, origin, f));
        if f == e {
            assert(0 <= count < count + 1 && count != origin[f] && names_line(lines, count, names[f]));
        } else {
            assert(names[f] != names[e]);
            if dup[f] {
                let m = choose|m: int|
                    #![trigger names_line(lines, m, names[f])]
                    0 <= m < count && m != origin[f] && names_line(lines, m, names[f]);
                assert(0 <= m < count + 1 && m != origin[f] && names_line(lines, m, names[f]));
            }
            if exists|m: int|
                #![trigger names_line(lines, m, names[f])]
                0 <= m < count + 1 && m != origin[f] && names_line(lines, m, names[f]) {
                let m = choose|m: int|
                    #![trigger names_line(lines, m, names[f])]
                    0 <= m < count + 1 && m != origin[f] && names_line(lines, m, names[f]);
                assert(m != count);
                assert(0 <= m < count && m != origin[f] && names_line(lines, m, names[f]));
            }
        }
    }
    assert forall|m: int| #![trigger lines[m]] 0 <= m < count + 1 implies !line_fails(lines, m) by {
        if m < count {
            assert(lines[m] == lines[m]);
        }
    }
    assert forall|m: int|
        #![trigger lines[m]]
        0 <= m < count + 1 && is_entry(lines, m) implies has_separator(lines[m])
        && names.contains(line_name(lines[m])) by {
        assert(lines[m] == lines[m]);
    }
}

proof fn lemma_new_name_is_first(
    lines: Seq<Seq<char>>,
    count: int,
    names: Seq<Seq<char>>,
    uuids: Seq<u128>,
    dup: Seq<bool>,
    origin: Seq<int>,
)
    requires
        entries_inv(lines, count, names, uuids, dup, origin),
        count < lines.len(),
        is_entry(lines, count),
        has_separator(lines[count]),
        !names.contains(line_name(lines[count])),
    ensures
        first_with_name(lines, count),
        forall|j: int| 0 <= j < count ==> !line_fails(lines, j),
{
    assert forall|j: int| 0 <= j < count implies !names_line(lines, j, line_name(lines[count])) by {
        assert(lines[j] == lines[j]);
    }
    assert forall|j: int| 0 <= j < count implies !line_fails(lines, j) by {
        assert(lines[j] == lines[j]);
    }
}

proof fn lemma_inv_new(
    lines: Seq<Seq<char>>,
    count: int,
    names: Seq<Seq<char>>,
    uuids: Seq<u128>,
    dup: Seq<bool>,
    origin: Seq<int>,
    u: u128,
)
    requires
        entries_inv(lines, count, names, uuids, dup, origin),
        count < lines.len(),
        first_with_name(lines, count),
        !names.contains(line_name(lines[count])),
        parsed_uuid(line_value(lines[count])) == Some(u),
    ensures
        entries_inv(
            lines,
            count + 1,
            names.push(line_name(lines[count])),
            uuids.push(u),
            dup.push(false),
            origin.push(count),
        ),
{
    let name = line_name(lines[count]);
    let nn = names.push(name);
    let nu = uuids.push(u);
    let nd = dup.push(false);
    let no = origin.push(count);
    assert forall|f: int, g: int| 0 <= f < nn.len() && 0 <= g < nn.len() && f != g implies nn[f]
        != nn[g] by {
        if f < names.len() && g < names.len() {
            assert(nn[f] == names[f] && nn[g] == names[g]);
        } else if f < names.len() {
            assert(nn[f] == names[f]);
        } else {
            assert(nn[g] == names[g]);
        }
    }
    assert forall|f: int| 0 <= f < nn.len() implies #[trigger] entry_ok(
        lines,
        count + 1,
        nn,
        nu,
        nd,
        no,
        f,
    ) by {
        if f < names.len() {
            assert(entry_ok(lines, count, names, uuids, dup, origin, f));
            assert(nn[f] == names[f]);
            assert(names[f] == names[f]);
            assert(names[f] != name);
            if dup[f] {
                let m = choose|m: int|
                    #![trigger names_line(lines, m, names[f])]
                    0 <= m < count && m != origin[f] && names_line(lines, m, names[f]);
                assert(0 <= m < count + 1 && m != no[f] && names_line(lines, m, nn[f]));
            }
            if exists|m: int|
                #![trigger names_line(lines, m, nn[f])]
                0 <= m < count + 1 && m != no[f] && names_line(lines, m, nn[f]) {
                let m = choose|m: int|
                    #![trigger names_line(lines, m, nn[f])]
                    0 <= m < count + 1 && m != no[f] && names_line(lines, m, nn[f]);
                assert(m != count);
                assert(0 <= m < count && m != origin[f] && names_line(lines, m, names[f]));
            }
        } else {
            assert(nn[f] == name);
            assert(no[f] == count);
            if exists|m: int|
                #![trigger names_line(lines, m, nn[f])]
                0 <= m < count + 1 && m != no[f] && names_line(lines, m, nn[f]) {
                let m = choose|m: int|
                    #![trigger names_line(lines, m, nn[f])]
                    0 <= m < count + 1 && m != no[f] && names_line(lines, m, nn[f]);
                assert(m < count);
                assert(!names_line(lines, m, name));
            }
        }
    }
    assert forall|m: int| #![trigger lines[m]] 0 <= m < count + 1 implies !line_fails(lines, m) by {
        if m < count {
            assert(lines[m] == lines[m]);
        }
    }
    assert forall|m: int|
        #![trigger lines[m]]
        0 <= m < count + 1 && is_entry(lines, m) implies has_separator(lines[m])
        && nn.contains(line_name(lines[m])) by {
        if m < count {
            assert(lines[m] == lines[m]);
            let f = choose|f: int| 0 <= f < names.len() && names[f] == line_name(lines[m]);
            assert(nn[f] == names[f]);
        } else {
            assert(nn[names.len() as int] == name);
        }
    }
}

/// Builds the translation map from the text of a look-up database.
///
/// Every non-empty line must have the form `name=uuid`. The map has an entry
/// exactly for the names that occur on one line only. The first line that has
/// no `=`, or that is the first line with its name and whose UUID does not
/// parse, makes the whole database invalid.
pub fn build_lookup_map(data: &str) -> (r: Result<LookupMap, LookupError>)
    ensures
        match r {
            Ok(m) => {
                &&& forall|l: int|
                    0 <= l < split_lines(data@).len() ==> !line_fails(split_lines(data@), l)
                &&& forall|k: Seq<char>| #[trigger]
                    m@.contains_key(k) <==> unique_name(split_lines(data@), k)
                &&& forall|k: Seq<char>| #[trigger]
                    m@.contains_key(k) ==> exists|i: int|
                        names_line(split_lines(data@), i, k) && parsed_uuid(
                            line_value(split_lines(data@)[i]),
                        ) == Some(m@[k])
            },
            Err(LookupError::MissingSeparator(l)) => first_failure(split_lines(data@), l as int)
                && !has_separator(split_lines(data@)[l as int]),
            Err(LookupError::InvalidUuid(l)) => first_failure(split_lines(data@), l as int)
                && has_separator(split_lines(data@)[l as int]),
        },
{
    // collect the characters of the text
    let mut chars: Vec<char> = Vec::new();
    for c in it: data.chars()
        invariant
            chars@ == it.seq().take(it.index() as int),
    {
        chars.push(c);
    }
    assert(chars@ =~= data@);
    let ghost lines = split_lines(data@);

    let mut names: Vec<String> = Vec::new();
    let mut uuids: Vec<u128> = Vec::new();
    let mut dup: Vec<bool> = Vec::new();
    let ghost mut origin: Seq<int> = Seq::empty();

    let mut line_no: usize = 0;
    let mut line_start: usize = 0;
    let mut i: usize = 0;
    proof {
        assert(chars@.take(0) =~= Seq::<char>::empty());
        assert(texts(names@) =~= Seq::<Seq<char>>::empty());
    }
    while i < chars.len()
        invariant
            chars@ == data@,
            lines == split_lines(data@),
            line_start <= i <= chars@.len(),
            split_lines(chars@.take(i as int)).len() == line_no + 1,
            split_lines(chars@.take(i as int)).last() == chars@.subrange(
                line_start as int,
                i as int,
            ),
            entries_inv(lines, line_no as int, texts(names@), uuids@, dup@, origin),
        decreases chars@.len() - i,
    {
        proof {
            lemma_split_lines_step(chars@, i as int);
            lemma_split_lines_prefix(chars@, i as int + 1);
            lemma_split_lines_len(chars@.take(i as int));
            lemma_split_lines_bound(chars@.take(i as int));
        }
        if chars[i] == '\n' {
            let line = copy_range(&chars, line_start, i);
            assert(lines[line_no as int] == line@);
            let (res, Ghost(next_origin)) = read_line(
                &line,
                line_no,
                &mut names,
                &mut uuids,
                &mut dup,
                Ghost(lines),
                Ghost(origin),
            );
            res?;
            proof {
                origin = next_origin;
            }
            line_no = line_no + 1;
            line_start = i + 1;
            assert(chars@.subrange(line_start as int, i + 1) =~= Seq::<char>::empty());
        } else {
            assert(chars@.subrange(line_start as int, i + 1) =~= chars@.subrange(
                line_start as int,
                i as int,
            ).push(chars@[i as int]));
        }
        i = i + 1;
    }
    proof {
        assert(chars@.take(i as int) =~= chars@);
    }
    let line = copy_range(&chars, line_start, i);
    let (res, Ghost(next_origin)) = read_line(
        &line,
        line_no,
        &mut names,
        &mut uuids,
        &mut dup,
        Ghost(lines),
        Ghost(origin),
    );
    res?;
    proof {
        origin = next_origin;
    }
    let map = keep_unique(names, uuids, dup, Ghost(lines), Ghost(origin));
    Ok(map)
}

/// The characters `chars[start..end]` as a vector of their own.
fn copy_range(chars: &Vec<char>, start: usize, end: usize) -> (r: Vec<char>)
    requires
        start <= end <= chars@.len(),
    ensures
        r@ == chars@.subrange(start as int, end as int),
{
    let mut r: Vec<char> = Vec::new();
    let mut j = start;
    while j < end
        invariant
            start <= j <= end,
            end <= chars@.len(),
            r@ == chars@.subrange(start as int, j as int),
        decreases end - j,
    {
        r.push(chars[j]);
        assert(chars@.subrange(start as int, j + 1) =~= chars@.subrange(start as int, j as int).push(
            chars@[j as int],
        ));
        j = j + 1;
    }
    r
}

/// Keeps the names that were seen on one line only.
fn keep_unique(
    names: Vec<String>,
    uuids: Vec<u128>,
    dup: Vec<bool>,
    Ghost(lines): Ghost<Seq<Seq<char>>>,
    Ghost(origin): Ghost<Seq<int>>,
) -> (m: LookupMap)
    requires
        entries_inv(lines, lines.len() as int, texts(names@), uuids@, dup@, origin),
    ensures
        forall|k: Seq<char>| #[trigger] m@.contains_key(k) <==> unique_name(lines, k),
        forall|k: Seq<char>| #[trigger]
            m@.contains_key(k) ==> exists|i: int|
                names_line(lines, i, k) && parsed_uuid(line_value(lines[i])) == Some(m@[k]),
{
    let ghost ns = texts(names@);
    let mut out_names: Vec<String> = Vec::new();
    let mut out_uuids: Vec<u128> = Vec::new();
    let ghost mut taken: Seq<int> = Seq::empty();
    let mut e: usize = 0;
    let n = names.len();
    while e < n
        invariant
            n == names@.len(),
            ns == texts(names@),
            e <= n,
            entries_inv(lines, lines.len() as int, ns, uuids@, dup@, origin),
            out_names@.len() == out_uuids@.len(),
            out_names@.len() == taken.len(),
            forall|f: int|
                0 <= f < taken.len() ==> 0 <= #[trigger] taken[f] < e && !dup@[taken[f]]
                    && out_names@[f]@ == ns[taken[f]] && out_uuids@[f] == uuids@[taken[f]],
            forall|f: int, g: int| 0 <= f < g < taken.len() ==> taken[f] < taken[g],
            forall|d: int|
                0 <= d < e && !dup@[d] ==> exists|f: int|
                    0 <= f < taken.len() && #[trigger] taken[f] == d,
        decreases n - e,
    {
        let ghost old_taken = taken;
        if !dup[e] {
            let name = names[e].clone();
            out_names.push(name);
            out_uuids.push(uuids[e]);
            proof {
                taken = taken.push(e as int);
                assert(taken[taken.len() - 1] == e as int);
            }
        }
        proof {
            assert forall|d: int| 0 <= d < e + 1 && !dup@[d] implies exists|f: int|
                0 <= f < taken.len() && #[trigger] taken[f] == d by {
                if d < e {
                    let f = choose|f: int| 0 <= f < old_taken.len() && #[trigger] old_taken[f] == d;
                    assert(taken[f] == old_taken[f]);
                } else {
                    assert(taken[taken.len() - 1] == d);
                }
            }
        }
        e = e + 1;
    }
    proof {
        let on = texts(out_names@);
        assert forall|f: int, g: int| 0 <= f < on.len() && 0 <= g < on.len() && f != g implies on[f]
            != on[g] by {
            assert(on[f] == ns[taken[f]]);
            assert(on[g] == ns[taken[g]]);
            assert(taken[f] != taken[g]);
        }
    }
    let m = LookupMap { names: out_names, uuids: out_uuids };
    proof {
        let on = texts(m.names@);
        assert forall|k: Seq<char>| #[trigger] m@.contains_key(k) <==> unique_name(lines, k) by {
            if on.contains(k) {
                let f = choose|f: int| 0 <= f < on.len() && on[f] == k;
                let d = taken[f];
                assert(entry_ok(lines, lines.len() as int, ns, uuids@, dup@, origin, d));
                assert(ns[d] == k);
                assert(names_line(lines, origin[d], ns[d]));
                assert forall|j: int| j != origin[d] implies !names_line(lines, j, k) by {
                    if names_line(lines, j, k) {
                        assert(0 <= j < lines.len());
                    }
                }
            }
            if unique_name(lines, k) {
                let i = choose|i: int|
                    #![trigger names_line(lines, i, k)]
                    names_line(lines, i, k) && forall|j: int| j != i ==> !names_line(lines, j, k);
                assert(lines[i] == lines[i]);
                let d = choose|d: int| 0 <= d < ns.len() && ns[d] == line_name(lines[i]);
                assert(entry_ok(lines, lines.len() as int, ns, uuids@, dup@, origin, d));
                assert(ns[d] == k);
                assert(names_line(lines, origin[d], ns[d]));
                assert(origin[d] == i);
                if dup@[d] {
                    let j = choose|j: int|
                        #![trigger names_line(lines, j, ns[d])]
                        0 <= j < lines.len() && j != origin[d] && names_line(lines, j, ns[d]);
                }
                let f = choose|f: int| 0 <= f < taken.len() && #[trigger] taken[f] == d;
                assert(on[f] == k);
            }
        }
        assert forall|k: Seq<char>| #[trigger] m@.contains_key(k) implies exists|i: int|
            names_line(lines, i, k) && parsed_uuid(line_value(lines[i])) == Some(m@[k]) by {
            let f = on.index_of(k);
            assert(0 <= f < on.len() && on[f] == k);
            let d = taken[f];
            assert(entry_ok(lines, lines.len() as int, ns, uuids@, dup@, origin, d));
            assert(ns[d] == k);
            assert(names_line(lines, origin[d], k));
        }
    }
    m
}

impl LookupMap {
    /// The UUID (as a number) of the asset named `name`, if the name is unique
    /// in the database.
    pub fn get(&self, name: &str) -> (r: Option<u128>)
        ensures
            r == (if self@.contains_key(name@) {
                Some(self@[name@])
            } else {
                None
            }),
    {
        proof {
            use_type_invariant(self);
        }
        let key = name.to_owned();
        match position_of(&self.names, &key) {
            Some(e) => {
                proof {
                    let ns = texts(self.names@);
                    assert(ns[e as int] == name@);
                    assert(ns.contains(name@));
                    assert(ns.index_of(name@) == e as int);
                }
                Some(self.uuids[e])
            },
            None => None,
        }
    }
}

} // verus!
