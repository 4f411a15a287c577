//! Environment files: lines that hold a name, an equals sign, and a value.
use vstd::prelude::*;
use vstd::string::*;

verus! {

/// Whether a character is white space in Unicode.
pub open spec fn is_white(c: char) -> bool {
    ||| '\u{9}' <= c <= '\u{d}'
    ||| c == '\u{20}'
    ||| c == '\u{85}'
    ||| c == '\u{a0}'
    ||| c == '\u{1680}'
    ||| '\u{2000}' <= c <= '\u{200a}'
    ||| c == '\u{2028}'
    ||| c == '\u{2029}'
    ||| c == '\u{202f}'
    ||| c == '\u{205f}'
    ||| c == '\u{3000}'
}

/// `part` is `text` without the white space at its two ends.
pub open spec fn is_trimmed(text: Seq<char>, part: Seq<char>) -> bool {
    &&& exists|from: int, to: int| #[trigger] trims(text, from, to) && part == text.subrange(from, to)
    &&& part.len() > 0 ==> !is_white(part[0]) && !is_white(part.last())
}

/// There is nothing but white space in front of `from` and from `to` on.
pub open spec fn trims(text: Seq<char>, from: int, to: int) -> bool {
    &&& 0 <= from <= to <= text.len()
    &&& forall|i: int| 0 <= i < from ==> is_white(#[trigger] text[i])
    &&& forall|i: int| to <= i < text.len() ==> is_white(#[trigger] text[i])
}

/// The name and the value of a setting.
#[derive(Clone, Debug)]
pub struct Setting {
    pub key: String,
    pub value: String,
}

/// What stands in front of the first equals sign of the line and what stands
/// behind it, without the white space around them, are the two parts of the
/// setting.
pub open spec fn line_sets(line: Seq<char>, setting: Setting) -> bool {
    exists|at: int| #[trigger] is_first_sign(line, at) && is_trimmed(line.take(at), setting.key@)
        && is_trimmed(line.skip(at + 1), setting.value@)
}

/// The first equals sign of the line is at the place `at`.
pub open spec fn is_first_sign(line: Seq<char>, at: int) -> bool {
    &&& 0 <= at < line.len()
    &&& line[at] == '='
    &&& !line.take(at).contains('=')
}

/// The lines of a text, which end at line feeds.
pub open spec fn lines_of(text: Seq<char>) -> Seq<Seq<char>>
    decreases text.len(),
{
    proof {
        text.index_of_last_ensures('\n');
    }
    match text.index_of_last('\n') {
        Some(end) => lines_of(text.take(end)).push(text.skip(end + 1)),
        None => seq![text],
    }
}

/// The settings are those of the lines that hold an equals sign, in the order
/// of the lines.
pub open spec fn lines_set(lines: Seq<Seq<char>>, settings: Seq<Setting>) -> bool
    decreases lines.len(),
{
    if lines.len() == 0 {
        settings.len() == 0
    } else if lines.last().contains('=') {
        &&& settings.len() > 0
        &&& line_sets(lines.last(), settings.last())
        &&& lines_set(lines.drop_last(), settings.drop_last())
    } else {
        lines_set(lines.drop_last(), settings)
    }
}

/// Whether a character is white space in Unicode.
fn whitespace(c: char) -> (white: bool)
    ensures
        white == is_white(c),
{
    ('\u{9}' <= c && c <= '\u{d}') || c == '\u{20}' || c == '\u{85}' || c == '\u{a0}' || c
        == '\u{1680}' || ('\u{2000}' <= c && c <= '\u{200a}') || c == '\u{2028}' || c == '\u{2029}'
        || c == '\u{202f}' || c == '\u{205f}' || c == '\u{3000}'
}

/// Copies the part of `line` between `from` and `to`, without the white space at
/// its two ends.
fn trimmed(line: &str, chars: &Vec<char>, from: usize, to: usize) -> (part: String)
    requires
        chars@ == line@,
        from <= to <= line@.len(),
    ensures
        is_trimmed(line@.subrange(from as int, to as int), part@),
{
    let ghost text = line@.subrange(from as int, to as int);
    let mut start: usize = from;
    while start < to && whitespace(chars[start])
        invariant
            from <= start <= to <= chars@.len(),
            chars@ == line@,
            text == line@.subrange(from as int, to as int),
            forall|i: int| 0 <= i < start - from ==> is_white(#[trigger] text[i]),
        decreases to - start,
    {
        start = start + 1;
    }
    let mut end: usize = to;
    while start < end && whitespace(chars[end - 1])
        invariant
            from <= start <= end <= to <= chars@.len(),
            chars@ == line@,
            text == line@.subrange(from as int, to as int),
            forall|i: int| 0 <= i < start - from ==> is_white(#[trigger] text[i]),
            forall|i: int| end - from <= i < text.len() ==> is_white(#[trigger] text[i]),
            start < to ==> !is_white(chars@[start as int]),
        decreases end - start,
    {
        end = end - 1;
    }
    let part = line.substring_char(start, end).to_owned();
    proof {
        let (a, b) = (start - from, end - from);
        assert(trims(text, a, b));
        assert(part@ =~= text.subrange(a, b));
    }
    part
}

/// Reads a line: what stands in front of the first equals sign and what stands
/// behind it, each without the white space around it. A line without an equals
/// sign sets nothing.
pub fn parse_line(line: &str) -> (setting: Option<Setting>)
    ensures
        match setting {
            Some(found) => line_sets(line@, found),
            None => !line@.contains('='),
        },
{
    let mut chars: Vec<char> = Vec::new();
    for c in it: line.chars()
        invariant
            chars@ == it.seq().take(it.index() as int),
            it.seq() == line@,
    {
        chars.push(c);
    }
    assert(chars@ =~= line@);
    let mut at: usize = 0;
    while at < chars.len()
        invariant
            at <= chars@.len(),
            chars@ == line@,
            forall|i: int| 0 <= i < at ==> #[trigger] line@[i] != '=',
        decreases chars@.len() - at,
    {
        if chars[at] == '=' {
            let key = trimmed(line, &chars, 0, at);
            let value = trimmed(line, &chars, at + 1, chars.len());
            proof {
                assert(line@.take(at as int) =~= line@.subrange(0, at as int));
                assert(line@.skip(at + 1) =~= line@.subrange(at + 1, line@.len() as int));
                assert forall|i: int| 0 <= i < at implies line@.take(at as int)[i] != '=' by {
                    assert(line@[i] != '=');
                }
                assert(is_first_sign(line@, at as int));
            }
            return Some(Setting { key, value });
        }
        at = at + 1;
    }
    None
}

/// The last line of a text whose last line feed is in front of `start`.
proof fn lemma_last_line(text: Seq<char>, start: int)
    requires
        0 < start <= text.len(),
        text[start - 1] == '\n',
        forall|i: int| start <= i < text.len() ==> #[trigger] text[i] != '\n',
    ensures
        lines_of(text) == lines_of(text.take(start - 1)).push(text.skip(start)),
{
    text.index_of_last_ensures('\n');
}

/// Reads a file: the settings of its lines, in their order.
pub fn parse_file(text: &str) -> (settings: Vec<Setting>)
    ensures
        lines_set(lines_of(text@), settings@),
{
    let mut chars: Vec<char> = Vec::new();
    for c in it: text.chars()
        invariant
            chars@ == it.seq().take(it.index() as int),
            it.seq() == text@,
    {
        chars.push(c);
    }
    assert(chars@ =~= text@);
    let mut settings: Vec<Setting> = Vec::new();
    let mut start: usize = 0;
    let mut at: usize = 0;
    loop
        invariant
            start <= at <= chars@.len(),
            chars@ == text@,
            forall|i: int| start <= i < at ==> #[trigger] text@[i] != '\n',
            start == 0 ==> settings@.len() == 0,
            start > 0 ==> text@[start - 1] == '\n' && lines_set(
                lines_of(text@.take(start - 1)),
                settings@,
            ),
        decreases chars@.len() - at,
    {
        if at < chars.len() && chars[at] != '\n' {
            at = at + 1;
            continue;
        }
        let line = text.substring_char(start, at);
        let ghost before = settings@;
        let ghost seen = text@.take(at as int);
        proof {
            if start == 0 {
                seen.index_of_last_ensures('\n');
                assert(line@ =~= seen);
                reveal_with_fuel(lines_set, 2);
                assert(lines_of(seen).drop_last() =~= Seq::empty());
            } else {
                lemma_last_line(seen, start as int);
                assert(seen.take(start - 1) =~= text@.take(start - 1));
                assert(line@ =~= seen.skip(start as int));
                assert(lines_of(seen).drop_last() =~= lines_of(text@.take(start - 1)));
            }
        }
        match parse_line(line) {
            Some(setting) => {
                settings.push(setting);
                assert(settings@.drop_last() =~= before);
            },
            None => {},
        }
        assert(lines_set(lines_of(seen), settings@));
        if at == chars.len() {
            assert(seen =~= text@);
            return settings;
        }
        at = at + 1;
        start = at;
    }
}

/// There is only one way to take the white space off the ends of a text.
pub proof fn law_trimming_is_settled(text: Seq<char>, one: Seq<char>, other: Seq<char>)
    requires
        is_trimmed(text, one),
        is_trimmed(text, other),
    ensures
        one == other,
{
    let (from, to): (int, int) = choose|from: int, to: int| #[trigger]
        trims(text, from, to) && one == text.subrange(from, to);
    let (from2, to2): (int, int) = choose|from: int, to: int| #[trigger]
        trims(text, from, to) && other == text.subrange(from, to);
    if one.len() > 0 {
        assert(one[0] == text[from] && one.last() == text[to - 1]);
        if other.len() == 0 {
            assert(from < from2 || from >= to2);
        }
    }
    if other.len() > 0 {
        assert(other[0] == text[from2] && other.last() == text[to2 - 1]);
        if one.len() == 0 {
            assert(from2 < from || from2 >= to);
        }
    }
    assert(one =~= other);
}

/// A line sets one thing at most.
pub proof fn law_line_is_settled(line: Seq<char>, one: Setting, other: Setting)
    requires
        line_sets(line, one),
        line_sets(line, other),
    ensures
        one.key@ == other.key@,
        one.value@ == other.value@,
{
    let at = choose|at: int| #[trigger]
        is_first_sign(line, at) && is_trimmed(line.take(at), one.key@) && is_trimmed(
            line.skip(at + 1),
            one.value@,
        );
    let at2 = choose|at: int| #[trigger]
        is_first_sign(line, at) && is_trimmed(line.take(at), other.key@) && is_trimmed(
            line.skip(at + 1),
            other.value@,
        );
    if at < at2 {
        assert(line.take(at2)[at] == '=');
    }
    if at2 < at {
        assert(line.take(at)[at2] == '=');
    }
    law_trimming_is_settled(line.take(at), one.key@, other.key@);
    law_trimming_is_settled(line.skip(at + 1), one.value@, other.value@);
}

/// The lines of a file settle what is set, and in which order.
pub proof fn law_file_is_settled(lines: Seq<Seq<char>>, one: Seq<Setting>, other: Seq<Setting>)
    requires
        lines_set(lines, one),
        lines_set(lines, other),
    ensures
        one.len() == other.len(),
        forall|i: int|
            0 <= i < one.len() ==> (#[trigger] one[i]).key@ == other[i].key@ && one[i].value@
                == other[i].value@,
    decreases lines.len(),
{
    if lines.len() > 0 {
        if lines.last().contains('=') {
            law_line_is_settled(lines.last(), one.last(), other.last());
            law_file_is_settled(lines.drop_last(), one.drop_last(), other.drop_last());
            assert forall|i: int| 0 <= i < one.len() implies (#[trigger] one[i]).key@
                == other[i].key@ && one[i].value@ == other[i].value@ by {
                if i < one.len() - 1 {
                    assert(one.drop_last()[i] == one[i]);
                }
            }
        } else {
            law_file_is_settled(lines.drop_last(), one, other);
        }
    }
}

/// White space around a text is taken off, and nothing else is.
pub proof fn law_padding_is_removed(front: Seq<char>, core: Seq<char>, back: Seq<char>)
    requires
        forall|i: int| 0 <= i < front.len() ==> is_white(#[trigger] front[i]),
        forall|i: int| 0 <= i < back.len() ==> is_white(#[trigger] back[i]),
        core.len() > 0 ==> !is_white(core[0]) && !is_white(core.last()),
    ensures
        is_trimmed(front + core + back, core),
{
    let text = front + core + back;
    let (from, to) = (front.len() as int, (front.len() + core.len()) as int);
    assert forall|i: int| to <= i < text.len() implies is_white(#[trigger] text[i]) by {
        assert(text[i] == back[i - to]);
    }
    assert(trims(text, from, to));
    assert(core =~= text.subrange(from, to));
}

/// White space is what Unicode says it is, by code point.
pub proof fn law_white_space(c: char)
    ensures
        is_white(c) <==> {
            let code = c as u32;
            ||| 9 <= code <= 13
            ||| code == 32
            ||| code == 133
            ||| code == 160
            ||| code == 5760
            ||| 8192 <= code <= 8202
            ||| 8232 <= code <= 8233
            ||| code == 8239
            ||| code == 8287
            ||| code == 12288
        },
{
}

/// White space holds no equals sign.
proof fn lemma_sign_is_not_white(c: char)
    requires
        is_white(c),
    ensures
        c != '=',
{
}

/// A line is read as it was written: whatever white space is put around a name
/// and a value, the line sets that name to that value and nothing else. The
/// name has no equals sign in it.
pub proof fn law_setting_is_read_back(
    pads: (Seq<char>, Seq<char>, Seq<char>, Seq<char>),
    key: Seq<char>,
    value: Seq<char>,
    setting: Setting,
)
    requires
        forall|i: int| 0 <= i < pads.0.len() ==> is_white(#[trigger] pads.0[i]),
        forall|i: int| 0 <= i < pads.1.len() ==> is_white(#[trigger] pads.1[i]),
        forall|i: int| 0 <= i < pads.2.len() ==> is_white(#[trigger] pads.2[i]),
        forall|i: int| 0 <= i < pads.3.len() ==> is_white(#[trigger] pads.3[i]),
        forall|i: int| 0 <= i < key.len() ==> #[trigger] key[i] != '=',
        key.len() > 0 ==> !is_white(key[0]) && !is_white(key.last()),
        value.len() > 0 ==> !is_white(value[0]) && !is_white(value.last()),
    ensures
        ({
            let line = pads.0 + key + pads.1 + seq!['='] + (pads.2 + value + pads.3);
            line_sets(line, setting) <==> setting.key@ == key && setting.value@ == value
        }),
{
    let front = pads.0 + key + pads.1;
    let back = pads.2 + value + pads.3;
    let line = front + seq!['='] + back;
    let at = front.len() as int;
    assert(line.take(at) =~= front);
    assert(line.skip(at + 1) =~= back);
    assert forall|i: int| 0 <= i < front.len() implies #[trigger] front[i] != '=' by {
        if i < pads.0.len() {
            assert(front[i] == pads.0[i]);
            lemma_sign_is_not_white(pads.0[i]);
        } else if i < pads.0.len() + key.len() {
            assert(front[i] == key[i - pads.0.len()]);
        } else {
            let j = i - pads.0.len() - key.len();
            assert(front[i] == pads.1[j]);
            lemma_sign_is_not_white(pads.1[j]);
        }
    }
    assert(is_first_sign(line, at));
    law_padding_is_removed(pads.0, key, pads.1);
    law_padding_is_removed(pads.2, value, pads.3);
    if line_sets(line, setting) {
        let at2 = choose|at: int| #[trigger]
            is_first_sign(line, at) && is_trimmed(line.take(at), setting.key@) && is_trimmed(
                line.skip(at + 1),
                setting.value@,
            );
        if at < at2 {
            assert(line.take(at2)[at] == '=');
        }
        if at2 < at {
            assert(line[at2] == front[at2]);
        }
        law_trimming_is_settled(front, key, setting.key@);
        law_trimming_is_settled(back, value, setting.value@);
    }
}

/// The lines, with a line feed between each two of them.
pub open spec fn with_line_feeds(lines: Seq<Seq<char>>) -> Seq<char>
    decreases lines.len(),
{
    if lines.len() == 0 {
        Seq::empty()
    } else if lines.len() == 1 {
        lines[0]
    } else {
        with_line_feeds(lines.drop_last()) + seq!['\n'] + lines.last()
    }
}

/// Lines end at line feeds and nowhere else: with line feeds between them the
/// lines make up the text, and none has a line feed in it.
pub proof fn law_lines_make_up_the_text(text: Seq<char>)
    ensures
        lines_of(text).len() > 0,
        with_line_feeds(lines_of(text)) == text,
        forall|i: int| 0 <= i < lines_of(text).len() ==> !(#[trigger] lines_of(text)[i]).contains('\n'),
    decreases text.len(),
{
    text.index_of_last_ensures('\n');
    let lines = lines_of(text);
    match text.index_of_last('\n') {
        Some(end) => {
            let front = lines_of(text.take(end));
            law_lines_make_up_the_text(text.take(end));
            assert(lines.drop_last() =~= front);
            assert(text =~= text.take(end) + seq!['\n'] + text.skip(end + 1));
            assert forall|i: int| 0 <= i < lines.len() implies !(#[trigger] lines[i]).contains(
                '\n',
            ) by {
                if i < front.len() {
                    assert(lines[i] == front[i]);
                } else {
                    let last = text.skip(end + 1);
                    assert forall|j: int| 0 <= j < last.len() implies last[j] != '\n' by {
                        assert(last[j] == text[end + 1 + j]);
                    }
                }
            }
        },
        None => {},
    }
}

/// The lines of two texts with a line feed between them are the lines of the one
/// and then those of the other.
pub proof fn law_line_feed_ends_a_line(first: Seq<char>, second: Seq<char>)
    ensures
        lines_of(first + seq!['\n'] + second) == lines_of(first) + lines_of(second),
    decreases second.len(),
{
    let whole = first + seq!['\n'] + second;
    whole.index_of_last_ensures('\n');
    second.index_of_last_ensures('\n');
    match second.index_of_last('\n') {
        Some(end) => {
            let at = first.len() + 1 + end;
            assert forall|i: int| at < i < whole.len() implies whole[i] != '\n' by {
                assert(whole[i] == second[i - first.len() - 1]);
            }
            assert(whole[at] == second[end]);
            lemma_last_line(whole, at + 1);
            law_line_feed_ends_a_line(first, second.take(end));
            assert(whole.take(at) =~= first + seq!['\n'] + second.take(end));
            assert(whole.skip(at + 1) =~= second.skip(end + 1));
            assert(lines_of(first) + lines_of(second) =~= (lines_of(first) + lines_of(
                second.take(end),
            )).push(second.skip(end + 1)));
        },
        None => {
            let at = first.len() as int;
            assert forall|i: int| at < i < whole.len() implies whole[i] != '\n' by {
                assert(whole[i] == second[i - at - 1]);
            }
            lemma_last_line(whole, at + 1);
            assert(whole.take(at) =~= first);
            assert(whole.skip(at + 1) =~= second);
            assert(lines_of(first) + lines_of(second) =~= lines_of(first).push(second));
        },
    }
}

/// No line is left out: there are as many settings as lines with an equals sign,
/// and each is the setting of its line.
pub proof fn law_every_line_with_a_sign_sets(lines: Seq<Seq<char>>, settings: Seq<Setting>)
    ensures
        lines_set(lines, settings) <==> {
            let signed = lines.filter(|line: Seq<char>| line.contains('='));
            &&& settings.len() == signed.len()
            &&& forall|k: int| 0 <= k < signed.len() ==> line_sets(signed[k], #[trigger] settings[k])
        },
    decreases lines.len(),
{
    reveal(Seq::filter);
    let sign = |line: Seq<char>| line.contains('=');
    let signed = lines.filter(sign);
    if lines.len() > 0 {
        let front = lines.drop_last().filter(sign);
        if lines.last().contains('=') {
            assert(signed =~= front.push(lines.last()));
            if settings.len() > 0 {
                let fewer = settings.drop_last();
                law_every_line_with_a_sign_sets(lines.drop_last(), fewer);
                if lines_set(lines, settings) {
                    assert forall|k: int| 0 <= k < signed.len() implies line_sets(
                        signed[k],
                        #[trigger] settings[k],
                    ) by {
                        if k < front.len() {
                            assert(fewer[k] == settings[k]);
                        }
                    }
                }
                if settings.len() == signed.len() && forall|k: int|
                    0 <= k < signed.len() ==> line_sets(signed[k], #[trigger] settings[k]) {
                    assert forall|k: int| 0 <= k < front.len() implies line_sets(
                        front[k],
                        #[trigger] fewer[k],
                    ) by {
                        assert(line_sets(signed[k], settings[k]));
                    }
                    assert(line_sets(signed[front.len() as int], settings[front.len() as int]));
                }
            }
        } else {
            assert(signed =~= front);
            law_every_line_with_a_sign_sets(lines.drop_last(), settings);
        }
    }
}

/// A setting does not depend on the lines around its own: the settings of a file
/// are those of its front and then those of its back, wherever it is parted at
/// a line feed.
pub proof fn law_settings_of_parts_add_up(
    first: Seq<char>,
    second: Seq<char>,
    of_first: Seq<Setting>,
    of_second: Seq<Setting>,
)
    requires
        lines_set(lines_of(first), of_first),
        lines_set(lines_of(second), of_second),
    ensures
        lines_set(lines_of(first + seq!['\n'] + second), of_first + of_second),
{
    law_line_feed_ends_a_line(first, second);
    lemma_settings_add_up(lines_of(first), lines_of(second), of_first, of_second);
}

proof fn lemma_settings_add_up(
    first: Seq<Seq<char>>,
    second: Seq<Seq<char>>,
    of_first: Seq<Setting>,
    of_second: Seq<Setting>,
)
    requires
        lines_set(first, of_first),
        lines_set(second, of_second),
    ensures
        lines_set(first + second, of_first + of_second),
    decreases second.len(),
{
    if second.len() == 0 {
        assert(first + second =~= first);
        assert(of_first + of_second =~= of_first);
    } else {
        assert((first + second).drop_last() =~= first + second.drop_last());
        if second.last().contains('=') {
            lemma_settings_add_up(first, second.drop_last(), of_first, of_second.drop_last());
            assert((of_first + of_second).drop_last() =~= of_first + of_second.drop_last());
        } else {
            lemma_settings_add_up(first, second.drop_last(), of_first, of_second);
        }
    }
}

} // verus!
