//! The persistence format: a JSON array of task objects, each with the four
//! fields `name`, `description`, `priority` and `add_time`, all carried as
//! JSON strings. Times are written fixed-width as
//! `YYYY-MM-DDTHH:MM:SS+HH:MM`; text is escaped with `\"`, `\\` and
//! `\u00XX` for control characters. The encoder emits a canonical form with
//! no surrounding whitespace, and the parser accepts exactly that form,
//! rejecting anything else as malformed.

use vstd::prelude::*;
use crate::task::{Priority, Task, TaskView, Timestamp};
use crate::text::{
    dec_digit, dec_val, dec_val_of, four_digits, hex_digit, hex_digit_char, hex_val, hex_val_of,
    push_char, push_four_digits, push_two_digits, to_chars, two_digits,
};
use vstd::string::StringExecFns;
use vstd::string::StrSliceExecFns;

verus! {

/// The views of the tasks in a vector, in order.
pub open spec fn views_of(tasks: Seq<Task>) -> Seq<TaskView> {
    tasks.map_values(|t: Task| t@)
}

/// The escaped image of one character inside a JSON string.
pub open spec fn escape_char(c: char) -> Seq<char> {
    if c == '"' {
        seq!['\\', '"']
    } else if c == '\\' {
        seq!['\\', '\\']
    } else if (c as u32) < 32 {
        seq!['\\', 'u', '0', '0', hex_digit(c as u32 as int / 16), hex_digit(c as u32 as int % 16)]
    } else {
        seq![c]
    }
}

/// The escaped image of a text, character by character.
pub open spec fn escape_seq(s: Seq<char>) -> Seq<char>
    decreases s.len(),
{
    if s.len() == 0 {
        Seq::empty()
    } else {
        escape_char(s[0]) + escape_seq(s.drop_first())
    }
}

/// A JSON string: the escaped text between double quotes.
pub open spec fn quoted(s: Seq<char>) -> Seq<char> {
    seq!['"'] + escape_seq(s) + seq!['"']
}

/// The quoted tag of a priority as it stands in the persisted form.
pub open spec fn prio_lit(p: Priority) -> Seq<char> {
    match p {
        Priority::Low => "\"Low\""@,
        Priority::Medium => "\"Medium\""@,
        Priority::High => "\"High\""@,
    }
}

/// The fixed-width image of an offset: sign, hours, colon, minutes.
pub open spec fn offset_image(off: int) -> Seq<char> {
    let a = if off >= 0 {
        off
    } else {
        -off
    };
    seq![if off >= 0 { '+' } else { '-' }] + two_digits(a / 60) + seq![':'] + two_digits(a % 60)
}

/// The 25-character image of a timestamp: `YYYY-MM-DDTHH:MM:SS` and the
/// offset.
pub open spec fn time_image(t: Timestamp) -> Seq<char> {
    four_digits(t.year as int) + seq!['-'] + two_digits(t.month as int) + seq!['-'] + two_digits(
        t.day as int,
    ) + seq!['T'] + two_digits(t.hour as int) + seq![':'] + two_digits(t.minute as int) + seq![':']
        + two_digits(t.second as int) + offset_image(t.offset_minutes as int)
}

/// The image of one task object.
pub open spec fn task_image(t: TaskView) -> Seq<char> {
    "{\"name\":"@ + quoted(t.name) + ",\"description\":"@ + quoted(t.description)
        + ",\"priority\":"@ + prio_lit(t.priority) + ",\"add_time\":\""@ + time_image(t.add_time)
        + "\"}"@
}

/// The image of every task after the first, each preceded by a comma.
pub open spec fn tasks_image_rest(ts: Seq<TaskView>) -> Seq<char>
    decreases ts.len(),
{
    if ts.len() == 0 {
        Seq::empty()
    } else {
        seq![','] + task_image(ts[0]) + tasks_image_rest(ts.drop_first())
    }
}

/// The image of a whole task sequence: a JSON array.
pub open spec fn tasks_image(ts: Seq<TaskView>) -> Seq<char> {
    if ts.len() == 0 {
        "[]"@
    } else {
        seq!['['] + task_image(ts[0]) + tasks_image_rest(ts.drop_first()) + seq![']']
    }
}

/// Escaping a text one character longer appends that character's image.
pub proof fn lemma_escape_seq_snoc(s: Seq<char>, c: char)
    ensures
        escape_seq(s.push(c)) == escape_seq(s) + escape_char(c),
    decreases s.len(),
{
    let spc = s.push(c);
    assert(spc.len() == s.len() + 1);
    if s.len() == 0 {
        assert(spc[0] == c);
        assert(spc.drop_first() =~= Seq::<char>::empty());
        assert(escape_seq(spc) == escape_char(c) + escape_seq(Seq::<char>::empty()));
        assert(escape_seq(Seq::<char>::empty()) == Seq::<char>::empty());
        assert(escape_char(c) + Seq::<char>::empty() =~= escape_char(c));
        assert(escape_seq(s) + escape_char(c) =~= escape_char(c));
    } else {
        assert(spc[0] == s[0]);
        assert(spc.drop_first() =~= s.drop_first().push(c));
        lemma_escape_seq_snoc(s.drop_first(), c);
        assert(escape_seq(spc) == escape_char(s[0]) + escape_seq(s.drop_first().push(c)));
        assert(escape_char(s[0]) + (escape_seq(s.drop_first()) + escape_char(c)) =~= (escape_char(
            s[0],
        ) + escape_seq(s.drop_first())) + escape_char(c));
    }
}

/// Appends the escaped, quoted image of `s`.
fn encode_string_into(out: &mut String, s: &String)
    ensures
        final(out)@ == old(out)@ + quoted(s@),
{
    push_char(out, '"');
    let cs: Vec<char> = to_chars(s.as_str());
    let mut i: usize = 0;
    while i < cs.len()
        invariant
            i <= cs@.len(),
            cs@ == s@,
            out@ == old(out)@ + seq!['"'] + escape_seq(s@.subrange(0, i as int)),
        decreases cs@.len() - i,
    {
        let ghost prefix = s@.subrange(0, i as int);
        let ghost before = out@;
        let c: char = cs[i];
        if c == '"' {
            push_char(out, '\\');
            push_char(out, '"');
        } else if c == '\\' {
            push_char(out, '\\');
            push_char(out, '\\');
        } else if (c as u32) < 32 {
            let code: u32 = c as u32;
            push_char(out, '\\');
            push_char(out, 'u');
            push_char(out, '0');
            push_char(out, '0');
            push_char(out, hex_digit_char(code / 16));
            push_char(out, hex_digit_char(code % 16));
        } else {
            push_char(out, c);
        }
        proof {
            assert(out@ =~= before + escape_char(c));
            lemma_escape_seq_snoc(prefix, c);
            assert(s@.subrange(0, i as int + 1) =~= prefix.push(c));
            assert(out@ =~= old(out)@ + seq!['"'] + escape_seq(s@.subrange(0, i as int + 1)));
        }
        i = i + 1;
    }
    assert(s@.subrange(0, s@.len() as int) =~= s@);
    push_char(out, '"');
    assert(out@ =~= old(out)@ + quoted(s@));
}

/// Appends the 25-character image of a timestamp.
#[verifier::rlimit(100)]
#[verifier::spinoff_prover]
fn encode_time_into(out: &mut String, t: &Timestamp)
    requires
        t.wf(),
    ensures
        final(out)@ == old(out)@ + time_image(*t),
{
    push_four_digits(out, t.year);
    push_char(out, '-');
    push_two_digits(out, t.month);
    push_char(out, '-');
    push_two_digits(out, t.day);
    push_char(out, 'T');
    push_two_digits(out, t.hour);
    push_char(out, ':');
    push_two_digits(out, t.minute);
    push_char(out, ':');
    push_two_digits(out, t.second);
    let a: u32 = if t.offset_minutes >= 0 {
        push_char(out, '+');
        t.offset_minutes as u32
    } else {
        push_char(out, '-');
        (-t.offset_minutes) as u32
    };
    push_two_digits(out, a / 60);
    push_char(out, ':');
    push_two_digits(out, a % 60);
    assert(out@ =~= old(out)@ + time_image(*t));
}

/// Appends the image of one task object.
fn encode_task_into(out: &mut String, t: &Task)
    requires
        t@.wf(),
    ensures
        final(out)@ == old(out)@ + task_image(t@),
{
    proof {
        reveal_strlit("\"Low\"");
        reveal_strlit("\"Medium\"");
        reveal_strlit("\"High\"");
        reveal_strlit("Low");
        reveal_strlit("Medium");
        reveal_strlit("High");
    }
    out.append("{\"name\":");
    encode_string_into(out, &t.name);
    out.append(",\"description\":");
    encode_string_into(out, &t.description);
    out.append(",\"priority\":");
    push_char(out, '"');
    let label: String = t.priority.to_string();
    out.append(label.as_str());
    push_char(out, '"');
    assert(seq!['"'] + crate::task::priority_label(t.priority) + seq!['"'] =~= prio_lit(
        t.priority,
    ));
    out.append(",\"add_time\":\"");
    encode_time_into(out, &t.add_time);
    out.append("\"}");
    assert(out@ =~= old(out)@ + task_image(t@));
}

/// The canonical persisted text of a task sequence.
#[verifier::rlimit(100)]
#[verifier::spinoff_prover]
pub fn encode_tasks(tasks: &Vec<Task>) -> (r: String)
    requires
        forall|i: int| 0 <= i < tasks@.len() ==> (#[trigger] tasks@[i])@.wf(),
    ensures
        r@ == tasks_image(views_of(tasks@)),
{
    let mut out: String = String::new();
    if tasks.len() == 0 {
        out.append("[]");
        assert(out@ =~= tasks_image(views_of(tasks@)));
        return out;
    }
    push_char(&mut out, '[');
    encode_task_into(&mut out, &tasks[0]);
    let mut i: usize = 1;
    while i < tasks.len()
        invariant
            1 <= i <= tasks@.len(),
            forall|k: int| 0 <= k < tasks@.len() ==> (#[trigger] tasks@[k])@.wf(),
            out@ == seq!['['] + task_image(tasks@[0]@) + tasks_image_rest(
                views_of(tasks@).subrange(1, i as int),
            ),
        decreases tasks@.len() - i,
    {
        let ghost done = views_of(tasks@).subrange(1, i as int);
        let ghost before = out@;
        push_char(&mut out, ',');
        encode_task_into(&mut out, &tasks[i]);
        proof {
            assert(out@ =~= before + (seq![','] + task_image(tasks@[i as int]@)));
            lemma_tasks_image_rest_snoc(done, tasks@[i as int]@);
            assert(views_of(tasks@).subrange(1, i as int + 1) =~= done.push(tasks@[i as int]@));
        }
        i = i + 1;
    }
    push_char(&mut out, ']');
    proof {
        assert(views_of(tasks@).subrange(1, tasks@.len() as int) =~= views_of(
            tasks@,
        ).drop_first());
        assert(out@ =~= tasks_image(views_of(tasks@)));
    }
    out
}

/// Extending a task sequence appends one more comma-prefixed object image.
#[verifier::rlimit(100)]
#[verifier::spinoff_prover]
pub proof fn lemma_tasks_image_rest_snoc(ts: Seq<TaskView>, t: TaskView)
    ensures
        tasks_image_rest(ts.push(t)) == tasks_image_rest(ts) + seq![','] + task_image(t),
    decreases ts.len(),
{
    let tspc = ts.push(t);
    assert(tspc.len() == ts.len() + 1);
    if ts.len() == 0 {
        assert(tspc[0] == t);
        assert(tspc.drop_first() =~= Seq::<TaskView>::empty());
        assert(tasks_image_rest(tspc) == seq![','] + task_image(t) + tasks_image_rest(
            Seq::<TaskView>::empty(),
        ));
        assert(tasks_image_rest(Seq::<TaskView>::empty()) == Seq::<char>::empty());
        assert(tasks_image_rest(tspc) =~= tasks_image_rest(ts) + seq![','] + task_image(t));
    } else {
        assert(tspc[0] == ts[0]);
        assert(tspc.drop_first() =~= ts.drop_first().push(t));
        lemma_tasks_image_rest_snoc(ts.drop_first(), t);
        assert(tasks_image_rest(tspc) == seq![','] + task_image(ts[0]) + tasks_image_rest(
            ts.drop_first().push(t),
        ));
        assert(tasks_image_rest(tspc) =~= tasks_image_rest(ts) + seq![','] + task_image(t));
    }
}

/// A prefix test at a position.
pub open spec fn has_prefix(s: Seq<char>, i: int, p: Seq<char>) -> bool {
    0 <= i && i + p.len() <= s.len() && s.subrange(i, i + p.len()) == p
}

/// Consumes an exact literal, yielding the position after it.
pub open spec fn parse_lit(s: Seq<char>, i: int, p: Seq<char>) -> Option<int> {
    if has_prefix(s, i, p) {
        Some(i + p.len())
    } else {
        None
    }
}

/// The character written as `\u00XX` with the two hexadecimal digit values.
pub open spec fn unescape_code(h: int, l: int) -> char {
    ((h * 16 + l) as u8) as char
}

/// Reads the body of a JSON string up to and over its closing quote,
/// undoing the escapes the encoder can produce.
pub open spec fn parse_string_body(s: Seq<char>, i: int) -> Option<(Seq<char>, int)>
    decreases s.len() - i,
{
    if i < 0 || i >= s.len() {
        None
    } else if s[i] == '"' {
        Some((Seq::empty(), i + 1))
    } else if s[i] == '\\' {
        if i + 2 > s.len() {
            None
        } else if s[i + 1] == '"' || s[i + 1] == '\\' {
            match parse_string_body(s, i + 2) {
                None => None,
                Some(p) => Some((seq![s[i + 1]] + p.0, p.1)),
            }
        } else if s[i + 1] == 'u' {
            if i + 6 > s.len() {
                None
            } else if s[i + 2] == '0' && s[i + 3] == '0' && hex_val(s[i + 4]) is Some && hex_val(
                s[i + 5],
            ) is Some {
                match parse_string_body(s, i + 6) {
                    None => None,
                    Some(p) => Some(
                        (seq![unescape_code(hex_val(s[i + 4])->0, hex_val(s[i + 5])->0)] + p.0, p.1),
                    ),
                }
            } else {
                None
            }
        } else {
            None
        }
    } else {
        match parse_string_body(s, i + 1) {
            None => None,
            Some(p) => Some((seq![s[i]] + p.0, p.1)),
        }
    }
}

/// A whole JSON string: an opening quote, then its body.
pub open spec fn parse_quoted(s: Seq<char>, i: int) -> Option<(Seq<char>, int)> {
    if 0 <= i < s.len() && s[i] == '"' {
        parse_string_body(s, i + 1)
    } else {
        None
    }
}

/// One of the three quoted priority tags.
pub open spec fn parse_priority(s: Seq<char>, i: int) -> Option<(Priority, int)> {
    if parse_lit(s, i, "\"Low\""@) is Some {
        Some((Priority::Low, parse_lit(s, i, "\"Low\""@)->0))
    } else if parse_lit(s, i, "\"Medium\""@) is Some {
        Some((Priority::Medium, parse_lit(s, i, "\"Medium\""@)->0))
    } else if parse_lit(s, i, "\"High\""@) is Some {
        Some((Priority::High, parse_lit(s, i, "\"High\""@)->0))
    } else {
        None
    }
}

/// Two decimal digits as a value below one hundred.
pub open spec fn dec2(s: Seq<char>, j: int) -> Option<int> {
    if 0 <= j && j + 2 <= s.len() && dec_val(s[j]) is Some && dec_val(s[j + 1]) is Some {
        Some(dec_val(s[j])->0 * 10 + dec_val(s[j + 1])->0)
    } else {
        None
    }
}

/// Four decimal digits as a value below ten thousand.
pub open spec fn dec4(s: Seq<char>, j: int) -> Option<int> {
    if 0 <= j && j + 4 <= s.len() && dec_val(s[j]) is Some && dec_val(s[j + 1]) is Some && dec_val(
        s[j + 2],
    ) is Some && dec_val(s[j + 3]) is Some {
        Some(
            dec_val(s[j])->0 * 1000 + dec_val(s[j + 1])->0 * 100 + dec_val(s[j + 2])->0 * 10
                + dec_val(s[j + 3])->0,
        )
    } else {
        None
    }
}

/// The 25-character timestamp image, validated against the representable
/// calendar ranges.
pub open spec fn parse_time(s: Seq<char>, i: int) -> Option<(Timestamp, int)> {
    if i < 0 || i + 25 > s.len() {
        None
    } else if dec4(s, i) is Some && s[i + 4] == '-' && dec2(s, i + 5) is Some && s[i + 7] == '-'
        && dec2(s, i + 8) is Some && s[i + 10] == 'T' && dec2(s, i + 11) is Some && s[i + 13] == ':'
        && dec2(s, i + 14) is Some && s[i + 16] == ':' && dec2(s, i + 17) is Some && (s[i + 19]
        == '+' || s[i + 19] == '-') && dec2(s, i + 20) is Some && s[i + 22] == ':' && dec2(
        s,
        i + 23,
    ) is Some {
        let t = Timestamp {
            year: dec4(s, i)->0 as u32,
            month: dec2(s, i + 5)->0 as u32,
            day: dec2(s, i + 8)->0 as u32,
            hour: dec2(s, i + 11)->0 as u32,
            minute: dec2(s, i + 14)->0 as u32,
            second: dec2(s, i + 17)->0 as u32,
            offset_minutes: (if s[i + 19] == '+' {
                dec2(s, i + 20)->0 * 60 + dec2(s, i + 23)->0
            } else {
                -(dec2(s, i + 20)->0 * 60 + dec2(s, i + 23)->0)
            }) as i32,
        };
        if t.wf() {
            Some((t, i + 25))
        } else {
            None
        }
    } else {
        None
    }
}

/// One task object in the persisted form.
pub open spec fn parse_task(s: Seq<char>, i: int) -> Option<(TaskView, int)> {
    match parse_lit(s, i, "{\"name\":"@) {
        None => None,
        Some(j1) => match parse_quoted(s, j1) {
            None => None,
            Some(name) => match parse_lit(s, name.1, ",\"description\":"@) {
                None => None,
                Some(j3) => match parse_quoted(s, j3) {
                    None => None,
                    Some(desc) => match parse_lit(s, desc.1, ",\"priority\":"@) {
                        None => None,
                        Some(j5) => match parse_priority(s, j5) {
                            None => None,
                            Some(prio) => match parse_lit(s, prio.1, ",\"add_time\":\""@) {
                                None => None,
                                Some(j7) => match parse_time(s, j7) {
                                    None => None,
                                    Some(time) => match parse_lit(s, time.1, "\"}"@) {
                                        None => None,
                                        Some(j9) => Some(
                                            (
                                                TaskView {
                                                    name: name.0,
                                                    description: desc.0,
                                                    priority: prio.0,
                                                    add_time: time.0,
                                                },
                                                j9,
                                            ),
                                        ),
                                    },
                                },
                            },
                        },
                    },
                },
            },
        },
    }
}

/// After the first object: either the closing bracket, or a comma and one
/// more object, repeatedly.
pub open spec fn parse_tasks_rest(s: Seq<char>, i: int) -> Option<(Seq<TaskView>, int)>
    decreases s.len() - i,
{
    if i < 0 || i >= s.len() {
        None
    } else if s[i] == ']' {
        Some((Seq::empty(), i + 1))
    } else if s[i] == ',' {
        match parse_task(s, i + 1) {
            None => None,
            Some(t) => if i + 1 < t.1 && t.1 <= s.len() {
                match parse_tasks_rest(s, t.1) {
                    None => None,
                    Some(ts) => Some((seq![t.0] + ts.0, ts.1)),
                }
            } else {
                None
            },
        }
    } else {
        None
    }
}

/// A whole persisted document: one array, consuming the entire text.
pub open spec fn parse_tasks(s: Seq<char>) -> Option<Seq<TaskView>> {
    if s.len() < 1 || s[0] != '[' {
        None
    } else if s.len() == 2 && s[1] == ']' {
        Some(Seq::empty())
    } else {
        match parse_task(s, 1) {
            None => None,
            Some(t) => if 1 < t.1 && t.1 <= s.len() {
                match parse_tasks_rest(s, t.1) {
                    None => None,
                    Some(ts) => if ts.1 == s.len() {
                        Some(seq![t.0] + ts.0)
                    } else {
                        None
                    },
                }
            } else {
                None
            },
        }
    }
}

/// Checks an exact literal at a position, returning the position after it.
fn expect_lit(s: &Vec<char>, i: usize, lit: &str) -> (r: Option<usize>)
    ensures
        match r {
            Some(j) => parse_lit(s@, i as int, lit@) == Some(j as int) && i <= j <= s@.len(),
            None => parse_lit(s@, i as int, lit@) is None,
        },
{
    let n: usize = lit.unicode_len();
    if n > s.len() || i > s.len() - n {
        return None;
    }
    let mut j: usize = 0;
    while j < n
        invariant
            j <= n,
            n == lit@.len(),
            i + n <= s@.len(),
            s@.len() <= usize::MAX,
            forall|k: int| 0 <= k < j ==> s@[i + k] == lit@[k],
        decreases n - j,
    {
        let c: char = lit.get_char(j);
        if s[i + j] != c {
            proof {
                assert(s@.subrange(i as int, i + lit@.len())[j as int] == s@[i + j]);
            }
            return None;
        }
        j = j + 1;
    }
    proof {
        assert(s@.subrange(i as int, i + lit@.len()) =~= lit@);
    }
    Some(i + n)
}

/// Reads a JSON string body, undoing the escapes, up to its closing quote.
fn parse_string_body_at(s: &Vec<char>, start: usize) -> (r: Option<(String, usize)>)
    ensures
        match r {
            Some(p) => parse_string_body(s@, start as int) == Some((p.0@, p.1 as int)) && start
                < p.1 <= s@.len(),
            None => parse_string_body(s@, start as int) is None,
        },
{
    if start > s.len() {
        return None;
    }
    let mut acc: String = String::new();
    let mut i: usize = start;
    proof {
        if parse_string_body(s@, start as int) is Some {
            let p = parse_string_body(s@, start as int)->0;
            assert(Seq::<char>::empty() + p.0 =~= p.0);
        }
    }
    loop
        invariant
            start <= i <= s@.len(),
            parse_string_body(s@, start as int) == (match parse_string_body(s@, i as int) {
                None => None::<(Seq<char>, int)>,
                Some(p) => Some((acc@ + p.0, p.1)),
            }),
        decreases s@.len() - i,
    {
        if i >= s.len() {
            return None;
        }
        let c: char = s[i];
        if c == '"' {
            assert(acc@ + Seq::<char>::empty() =~= acc@);
            return Some((acc, i + 1));
        } else if c == '\\' {
            if s.len() - i < 2 {
                return None;
            }
            let e: char = s[i + 1];
            if e == '"' || e == '\\' {
                let ghost before = acc@;
                push_char(&mut acc, e);
                proof {
                    if parse_string_body(s@, i + 2) is Some {
                        let p = parse_string_body(s@, i + 2)->0;
                        assert(before + (seq![e] + p.0) =~= acc@ + p.0);
                    }
                }
                i = i + 2;
            } else if e == 'u' {
                if s.len() - i < 6 {
                    return None;
                }
                if s[i + 2] != '0' || s[i + 3] != '0' {
                    return None;
                }
                let h: Option<u32> = hex_val_of(s[i + 4]);
                let l: Option<u32> = hex_val_of(s[i + 5]);
                match (h, l) {
                    (Some(hv), Some(lv)) => {
                        let code: u32 = hv * 16 + lv;
                        let ch: char = (code as u8) as char;
                        assert(ch == unescape_code(hex_val(s@[i + 4])->0, hex_val(s@[i + 5])->0));
                        let ghost before = acc@;
                        push_char(&mut acc, ch);
                        proof {
                            if parse_string_body(s@, i + 6) is Some {
                                let p = parse_string_body(s@, i + 6)->0;
                                assert(before + (seq![ch] + p.0) =~= acc@ + p.0);
                            }
                        }
                        i = i + 6;
                    },
                    _ => {
                        return None;
                    },
                }
            } else {
                return None;
            }
        } else {
            let ghost before = acc@;
            push_char(&mut acc, c);
            proof {
                if parse_string_body(s@, i + 1) is Some {
                    let p = parse_string_body(s@, i + 1)->0;
                    assert(before + (seq![c] + p.0) =~= acc@ + p.0);
                }
            }
            i = i + 1;
        }
    }
}

/// Reads a whole JSON string at a position.
fn parse_quoted_at(s: &Vec<char>, i: usize) -> (r: Option<(String, usize)>)
    ensures
        match r {
            Some(p) => parse_quoted(s@, i as int) == Some((p.0@, p.1 as int)) && i < p.1
                <= s@.len(),
            None => parse_quoted(s@, i as int) is None,
        },
{
    if i >= s.len() {
        return None;
    }
    if s[i] != '"' {
        return None;
    }
    parse_string_body_at(s, i + 1)
}

/// Reads one of the three quoted priority tags.
fn parse_priority_at(s: &Vec<char>, i: usize) -> (r: Option<(Priority, usize)>)
    ensures
        match r {
            Some(p) => parse_priority(s@, i as int) == Some((p.0, p.1 as int)) && i <= p.1
                <= s@.len(),
            None => parse_priority(s@, i as int) is None,
        },
{
    match expect_lit(s, i, "\"Low\"") {
        Some(j) => Some((Priority::Low, j)),
        None => match expect_lit(s, i, "\"Medium\"") {
            Some(j) => Some((Priority::Medium, j)),
            None => match expect_lit(s, i, "\"High\"") {
                Some(j) => Some((Priority::High, j)),
                None => None,
            },
        },
    }
}

/// Reads two decimal digits.
fn dec2_at(s: &Vec<char>, j: usize) -> (r: Option<u32>)
    requires
        j + 2 <= s@.len(),
    ensures
        match r {
            Some(v) => dec2(s@, j as int) == Some(v as int) && v < 100,
            None => dec2(s@, j as int) is None,
        },
{
    let n: usize = s.len();
    let a: Option<u32> = dec_val_of(s[j]);
    let b: Option<u32> = dec_val_of(s[j + 1]);
    match (a, b) {
        (Some(x), Some(y)) => Some(x * 10 + y),
        _ => None,
    }
}

/// Reads four decimal digits.
fn dec4_at(s: &Vec<char>, j: usize) -> (r: Option<u32>)
    requires
        j + 4 <= s@.len(),
    ensures
        match r {
            Some(v) => dec4(s@, j as int) == Some(v as int) && v < 10000,
            None => dec4(s@, j as int) is None,
        },
{
    let n: usize = s.len();
    let a: Option<u32> = dec_val_of(s[j]);
    let b: Option<u32> = dec_val_of(s[j + 1]);
    let c: Option<u32> = dec_val_of(s[j + 2]);
    let d: Option<u32> = dec_val_of(s[j + 3]);
    match (a, b, c, d) {
        (Some(w), Some(x), Some(y), Some(z)) => Some(w * 1000 + x * 100 + y * 10 + z),
        _ => None,
    }
}

/// Reads and validates the 25-character timestamp image.
#[verifier::rlimit(100)]
#[verifier::spinoff_prover]
fn parse_time_at(s: &Vec<char>, i: usize) -> (r: Option<(Timestamp, usize)>)
    ensures
        match r {
            Some(p) => parse_time(s@, i as int) == Some((p.0, p.1 as int)) && i < p.1 <= s@.len()
                && p.0.wf(),
            None => parse_time(s@, i as int) is None,
        },
{
    if i > s.len() || s.len() - i < 25 {
        return None;
    }
    let year: Option<u32> = dec4_at(s, i);
    let month: Option<u32> = dec2_at(s, i + 5);
    let day: Option<u32> = dec2_at(s, i + 8);
    let hour: Option<u32> = dec2_at(s, i + 11);
    let minute: Option<u32> = dec2_at(s, i + 14);
    let second: Option<u32> = dec2_at(s, i + 17);
    let offh: Option<u32> = dec2_at(s, i + 20);
    let offm: Option<u32> = dec2_at(s, i + 23);
    if s[i + 4] != '-' || s[i + 7] != '-' || s[i + 10] != 'T' || s[i + 13] != ':' || s[i + 16]
        != ':' || s[i + 22] != ':' {
        return None;
    }
    let sign: char = s[i + 19];
    if sign != '+' && sign != '-' {
        return None;
    }
    match (year, month, day, hour, minute, second, offh, offm) {
        (Some(y), Some(mo), Some(d), Some(h), Some(mi), Some(sec), Some(oh), Some(om)) => {
            let total: u32 = oh * 60 + om;
            let off: i32 = if sign == '+' {
                total as i32
            } else {
                -(total as i32)
            };
            let t = Timestamp {
                year: y,
                month: mo,
                day: d,
                hour: h,
                minute: mi,
                second: sec,
                offset_minutes: off,
            };
            if y <= 9999 && 1 <= mo && mo <= 12 && 1 <= d && d <= 31 && h < 24 && mi < 60 && sec
                < 60 && -1440 < off && off < 1440 {
                Some((t, i + 25))
            } else {
                None
            }
        },
        _ => None,
    }
}

/// Reads one task object.
fn parse_task_at(s: &Vec<char>, i: usize) -> (r: Option<(Task, usize)>)
    ensures
        match r {
            Some(p) => parse_task(s@, i as int) == Some((p.0@, p.1 as int)) && i < p.1 <= s@.len()
                && p.0@.wf(),
            None => parse_task(s@, i as int) is None,
        },
{
    let j1: usize = match expect_lit(s, i, "{\"name\":") {
        Some(j) => j,
        None => {
            return None;
        },
    };
    let (name, j2): (String, usize) = match parse_quoted_at(s, j1) {
        Some(p) => p,
        None => {
            return None;
        },
    };
    let j3: usize = match expect_lit(s, j2, ",\"description\":") {
        Some(j) => j,
        None => {
            return None;
        },
    };
    let (desc, j4): (String, usize) = match parse_quoted_at(s, j3) {
        Some(p) => p,
        None => {
            return None;
        },
    };
    let j5: usize = match expect_lit(s, j4, ",\"priority\":") {
        Some(j) => j,
        None => {
            return None;
        },
    };
    let (prio, j6): (Priority, usize) = match parse_priority_at(s, j5) {
        Some(p) => p,
        None => {
            return None;
        },
    };
    let j7: usize = match expect_lit(s, j6, ",\"add_time\":\"") {
        Some(j) => j,
        None => {
            return None;
        },
    };
    let (time, j8): (Timestamp, usize) = match parse_time_at(s, j7) {
        Some(p) => p,
        None => {
            return None;
        },
    };
    let j9: usize = match expect_lit(s, j8, "\"}") {
        Some(j) => j,
        None => {
            return None;
        },
    };
    Some((Task { name, description: desc, priority: prio, add_time: time }, j9))
}

/// Reads a whole persisted document; the entire text must be one array.
#[verifier::rlimit(100)]
#[verifier::spinoff_prover]
pub fn parse_tasks_chars(s: &Vec<char>) -> (r: Option<Vec<Task>>)
    ensures
        match r {
            Some(v) => parse_tasks(s@) == Some(views_of(v@)) && forall|k: int|
                0 <= k < v@.len() ==> (#[trigger] v@[k])@.wf(),
            None => parse_tasks(s@) is None,
        },
{
    if s.len() < 1 {
        return None;
    }
    if s[0] != '[' {
        return None;
    }
    if s.len() == 2 && s[1] == ']' {
        let empty: Vec<Task> = Vec::new();
        assert(views_of(empty@) =~= Seq::<TaskView>::empty());
        return Some(empty);
    }
    let (first, j0): (Task, usize) = match parse_task_at(s, 1) {
        Some(p) => p,
        None => {
            return None;
        },
    };
    if !(1 < j0 && j0 <= s.len()) {
        return None;
    }
    let mut acc: Vec<Task> = Vec::new();
    acc.push(first);
    let mut pos: usize = j0;
    let ghost whole = parse_tasks(s@);
    proof {
        if parse_tasks_rest(s@, j0 as int) is Some {
            let p = parse_tasks_rest(s@, j0 as int)->0;
            assert(seq![first@] + p.0 =~= views_of(acc@) + p.0);
        }
    }
    loop
        invariant
            j0 <= pos <= s@.len(),
            acc@.len() >= 1,
            forall|k: int| 0 <= k < acc@.len() ==> (#[trigger] acc@[k])@.wf(),
            whole == parse_tasks(s@),
            whole == (match parse_tasks_rest(s@, pos as int) {
                None => None::<Seq<TaskView>>,
                Some(p) => if p.1 == s@.len() {
                    Some(views_of(acc@) + p.0)
                } else {
                    None::<Seq<TaskView>>
                },
            }),
        decreases s@.len() - pos,
    {
        if pos >= s.len() {
            return None;
        }
        let c: char = s[pos];
        if c == ']' {
            if pos + 1 == s.len() {
                assert(views_of(acc@) + Seq::<TaskView>::empty() =~= views_of(acc@));
                return Some(acc);
            } else {
                return None;
            }
        } else if c == ',' {
            let (t, j): (Task, usize) = match parse_task_at(s, pos + 1) {
                Some(p) => p,
                None => {
                    return None;
                },
            };
            if !(pos + 1 < j && j <= s.len()) {
                return None;
            }
            let ghost before = acc@;
            acc.push(t);
            proof {
                assert(views_of(acc@) =~= views_of(before).push(t@));
                if parse_tasks_rest(s@, j as int) is Some {
                    let p = parse_tasks_rest(s@, j as int)->0;
                    assert(views_of(before) + (seq![t@] + p.0) =~= views_of(acc@) + p.0);
                }
            }
            pos = j;
        } else {
            return None;
        }
    }
}

/// Reads the persisted text itself.
pub fn parse_tasks_text(s: &str) -> (r: Option<Vec<Task>>)
    ensures
        match r {
            Some(v) => parse_tasks(s@) == Some(views_of(v@)) && forall|k: int|
                0 <= k < v@.len() ==> (#[trigger] v@[k])@.wf(),
            None => parse_tasks(s@) is None,
        },
{
    let cs: Vec<char> = to_chars(s);
    parse_tasks_chars(&cs)
}

/// A prefix fact at a position gives the character at each offset.
pub proof fn lemma_prefix_index(s: Seq<char>, i: int, p: Seq<char>, k: int)
    requires
        has_prefix(s, i, p),
        0 <= k < p.len(),
    ensures
        s[i + k] == p[k],
{
    assert(s.subrange(i, i + p.len())[k] == s[i + k]);
}

/// A prefix made of two parts is each part in turn.
pub proof fn lemma_prefix_split(s: Seq<char>, i: int, a: Seq<char>, b: Seq<char>)
    requires
        has_prefix(s, i, a + b),
    ensures
        has_prefix(s, i, a),
        has_prefix(s, i + a.len(), b),
{
    let ab = a + b;
    assert forall|k: int| 0 <= k < a.len() implies s.subrange(i, i + a.len())[k] == a[k] by {
        assert(s.subrange(i, i + ab.len())[k] == s[i + k]);
        assert(ab[k] == a[k]);
        assert(s.subrange(i, i + a.len())[k] == s[i + k]);
    }
    assert(s.subrange(i, i + a.len()) =~= a);
    assert forall|k: int|
        0 <= k < b.len() implies s.subrange(i + a.len(), i + a.len() + b.len())[k] == b[k] by {
        assert(s.subrange(i, i + ab.len())[a.len() + k] == s[i + a.len() + k]);
        assert(ab[a.len() + k] == b[k]);
        assert(s.subrange(i + a.len(), i + a.len() + b.len())[k] == s[i + a.len() + k]);
    }
    assert(s.subrange(i + a.len(), i + a.len() + b.len()) =~= b);
}

/// Reading back an escaped text followed by the closing quote yields the
/// original text.
pub proof fn lemma_parse_escape(s: Seq<char>, i: int, x: Seq<char>)
    requires
        has_prefix(s, i, escape_seq(x) + seq!['"']),
    ensures
        parse_string_body(s, i) == Some((x, i + escape_seq(x).len() + 1)),
    decreases x.len(),
{
    if x.len() == 0 {
        assert(escape_seq(x) == Seq::<char>::empty());
        assert((escape_seq(x) + seq!['"'])[0] == '"');
        lemma_prefix_index(s, i, escape_seq(x) + seq!['"'], 0);
        assert(x =~= Seq::<char>::empty());
    } else {
        let c = x[0];
        let x1 = x.drop_first();
        assert(escape_seq(x) == escape_char(c) + escape_seq(x1));
        let tail = escape_seq(x1) + seq!['"'];
        assert(escape_seq(x) + seq!['"'] =~= escape_char(c) + tail);
        lemma_prefix_split(s, i, escape_char(c), tail);
        let n0 = escape_char(c).len();
        lemma_parse_escape(s, i + n0, x1);
        if c == '"' {
            lemma_prefix_index(s, i, escape_char(c), 0);
            lemma_prefix_index(s, i, escape_char(c), 1);
            assert(s[i] == '\\' && s[i + 1] == '"');
            assert(seq![s[i + 1]] + x1 =~= x);
        } else if c == '\\' {
            lemma_prefix_index(s, i, escape_char(c), 0);
            lemma_prefix_index(s, i, escape_char(c), 1);
            assert(s[i] == '\\' && s[i + 1] == '\\');
            assert(seq![s[i + 1]] + x1 =~= x);
        } else if (c as u32) < 32 {
            let code = c as u32 as int;
            lemma_prefix_index(s, i, escape_char(c), 0);
            lemma_prefix_index(s, i, escape_char(c), 1);
            lemma_prefix_index(s, i, escape_char(c), 2);
            lemma_prefix_index(s, i, escape_char(c), 3);
            lemma_prefix_index(s, i, escape_char(c), 4);
            lemma_prefix_index(s, i, escape_char(c), 5);
            crate::text::lemma_hex_digit_val(code / 16);
            crate::text::lemma_hex_digit_val(code % 16);
            assert(code / 16 * 16 + code % 16 == code);
            assert(0 <= code < 32);
            let ch = unescape_code(code / 16, code % 16);
            let u: u32 = c as u32;
            assert(ch as u32 == u);
            vstd::utf8::char_u32_cast(c, u);
            vstd::utf8::char_u32_cast(ch, u);
            assert(ch == c);
            assert(seq![c] + x1 =~= x);
        } else {
            lemma_prefix_index(s, i, escape_char(c), 0);
            assert(s[i] == c);
            assert(seq![s[i]] + x1 =~= x);
        }
    }
}

/// Reading back a quoted text yields the original text.
pub proof fn lemma_parse_quoted_image(s: Seq<char>, i: int, x: Seq<char>)
    requires
        has_prefix(s, i, quoted(x)),
    ensures
        parse_quoted(s, i) == Some((x, i + quoted(x).len())),
{
    assert(quoted(x) =~= seq!['"'] + (escape_seq(x) + seq!['"']));
    lemma_prefix_split(s, i, seq!['"'], escape_seq(x) + seq!['"']);
    lemma_prefix_index(s, i, seq!['"'], 0);
    lemma_parse_escape(s, i + 1, x);
}

/// Reading back a priority tag yields the same priority.
pub proof fn lemma_parse_priority_image(s: Seq<char>, i: int, p: Priority)
    requires
        has_prefix(s, i, prio_lit(p)),
    ensures
        parse_priority(s, i) == Some((p, i + prio_lit(p).len())),
{
    reveal_strlit("\"Low\"");
    reveal_strlit("\"Medium\"");
    reveal_strlit("\"High\"");
    match p {
        Priority::Low => {
        },
        Priority::Medium => {
            if has_prefix(s, i, "\"Low\""@) {
                lemma_prefix_index(s, i, "\"Low\""@, 1);
                lemma_prefix_index(s, i, "\"Medium\""@, 1);
                assert(false);
            }
        },
        Priority::High => {
            if has_prefix(s, i, "\"Low\""@) {
                lemma_prefix_index(s, i, "\"Low\""@, 1);
                lemma_prefix_index(s, i, "\"High\""@, 1);
                assert(false);
            }
            if has_prefix(s, i, "\"Medium\""@) {
                lemma_prefix_index(s, i, "\"Medium\""@, 1);
                lemma_prefix_index(s, i, "\"High\""@, 1);
                assert(false);
            }
        },
    }
}

/// Splitting a value below ten thousand into its four decimal digits and
/// recombining them gives the value back.
pub proof fn lemma_four_digit_value(n: int)
    requires
        0 <= n < 10000,
    ensures
        n / 1000 * 1000 + (n / 100) % 10 * 100 + (n / 10) % 10 * 10 + n % 10 == n,
{
    vstd::arithmetic::div_mod::lemma_div_denominator(n, 10, 10);
    vstd::arithmetic::div_mod::lemma_div_denominator(n, 100, 10);
    assert(n == n / 10 * 10 + n % 10);
    assert(n / 10 == n / 10 / 10 * 10 + (n / 10) % 10);
    assert(n / 100 == n / 100 / 10 * 10 + (n / 100) % 10);
}

/// Reading back a timestamp image yields the same timestamp.
#[verifier::rlimit(100)]
#[verifier::spinoff_prover]
pub proof fn lemma_parse_time_image(s: Seq<char>, i: int, t: Timestamp)
    requires
        t.wf(),
        has_prefix(s, i, time_image(t)),
    ensures
        parse_time(s, i) == Some((t, i + 25)),
{
    let img = time_image(t);
    assert(img.len() == 25);
    assert forall|k: int| 0 <= k < 25 implies s[i + k] == img[k] by {
        lemma_prefix_index(s, i, img, k);
    }
    let y = t.year as int;
    let mo = t.month as int;
    let d = t.day as int;
    let h = t.hour as int;
    let mi = t.minute as int;
    let sec = t.second as int;
    let off = t.offset_minutes as int;
    let a = if off >= 0 {
        off
    } else {
        -off
    };
    assert(img[0] == dec_digit(y / 1000));
    assert(img[1] == dec_digit((y / 100) % 10));
    assert(img[2] == dec_digit((y / 10) % 10));
    assert(img[3] == dec_digit(y % 10));
    assert(img[4] == '-');
    assert(img[5] == dec_digit(mo / 10));
    assert(img[6] == dec_digit(mo % 10));
    assert(img[7] == '-');
    assert(img[8] == dec_digit(d / 10));
    assert(img[9] == dec_digit(d % 10));
    assert(img[10] == 'T');
    assert(img[11] == dec_digit(h / 10));
    assert(img[12] == dec_digit(h % 10));
    assert(img[13] == ':');
    assert(img[14] == dec_digit(mi / 10));
    assert(img[15] == dec_digit(mi % 10));
    assert(img[16] == ':');
    assert(img[17] == dec_digit(sec / 10));
    assert(img[18] == dec_digit(sec % 10));
    assert(img[19] == (if off >= 0 {
        '+'
    } else {
        '-'
    }));
    assert(img[20] == dec_digit(a / 60 / 10));
    assert(img[21] == dec_digit(a / 60 % 10));
    assert(img[22] == ':');
    assert(img[23] == dec_digit(a % 60 / 10));
    assert(img[24] == dec_digit(a % 60 % 10));
    crate::text::lemma_dec_digit_val(y / 1000);
    crate::text::lemma_dec_digit_val((y / 100) % 10);
    crate::text::lemma_dec_digit_val((y / 10) % 10);
    crate::text::lemma_dec_digit_val(y % 10);
    crate::text::lemma_dec_digit_val(mo / 10);
    crate::text::lemma_dec_digit_val(mo % 10);
    crate::text::lemma_dec_digit_val(d / 10);
    crate::text::lemma_dec_digit_val(d % 10);
    crate::text::lemma_dec_digit_val(h / 10);
    crate::text::lemma_dec_digit_val(h % 10);
    crate::text::lemma_dec_digit_val(mi / 10);
    crate::text::lemma_dec_digit_val(mi % 10);
    crate::text::lemma_dec_digit_val(sec / 10);
    crate::text::lemma_dec_digit_val(sec % 10);
    crate::text::lemma_dec_digit_val(a / 60 / 10);
    crate::text::lemma_dec_digit_val(a / 60 % 10);
    crate::text::lemma_dec_digit_val(a % 60 / 10);
    crate::text::lemma_dec_digit_val(a % 60 % 10);
    lemma_four_digit_value(y);
    assert(dec4(s, i) == Some(y));
    assert(dec2(s, i + 5) == Some(mo));
    assert(dec2(s, i + 8) == Some(d));
    assert(dec2(s, i + 11) == Some(h));
    assert(dec2(s, i + 14) == Some(mi));
    assert(dec2(s, i + 17) == Some(sec));
    assert(dec2(s, i + 20) == Some(a / 60));
    assert(dec2(s, i + 23) == Some(a % 60));
    assert(a / 60 * 60 + a % 60 == a);
    let parsed = (parse_time(s, i)->0).0;
    assert(parsed.offset_minutes == t.offset_minutes);
    assert(parsed == t);
}

/// Reading back a task image yields the same task.
#[verifier::rlimit(100)]
#[verifier::spinoff_prover]
pub proof fn lemma_parse_task_image(s: Seq<char>, i: int, t: TaskView)
    requires
        t.wf(),
        has_prefix(s, i, task_image(t)),
    ensures
        parse_task(s, i) == Some((t, i + task_image(t).len())),
{
    let lit_name = "{\"name\":"@;
    let q1 = quoted(t.name);
    let lit_desc = ",\"description\":"@;
    let q2 = quoted(t.description);
    let lit_prio = ",\"priority\":"@;
    let q3 = prio_lit(t.priority);
    let lit_time = ",\"add_time\":\""@;
    let q4 = time_image(t.add_time);
    let lit_close = "\"}"@;
    assert(task_image(t) =~= lit_name + (q1 + (lit_desc + (q2 + (lit_prio + (q3 + (lit_time + (q4 + lit_close))))))));
    lemma_prefix_split(s, i, lit_name, q1 + (lit_desc + (q2 + (lit_prio + (q3 + (lit_time + (q4 + lit_close)))))));
    let j1 = i + lit_name.len();
    lemma_prefix_split(s, j1, q1, lit_desc + (q2 + (lit_prio + (q3 + (lit_time + (q4 + lit_close))))));
    lemma_parse_quoted_image(s, j1, t.name);
    let j2 = j1 + q1.len();
    lemma_prefix_split(s, j2, lit_desc, q2 + (lit_prio + (q3 + (lit_time + (q4 + lit_close)))));
    let j3 = j2 + lit_desc.len();
    lemma_prefix_split(s, j3, q2, lit_prio + (q3 + (lit_time + (q4 + lit_close))));
    lemma_parse_quoted_image(s, j3, t.description);
    let j4 = j3 + q2.len();
    lemma_prefix_split(s, j4, lit_prio, q3 + (lit_time + (q4 + lit_close)));
    let j5 = j4 + lit_prio.len();
    lemma_prefix_split(s, j5, q3, lit_time + (q4 + lit_close));
    lemma_parse_priority_image(s, j5, t.priority);
    let j6 = j5 + q3.len();
    lemma_prefix_split(s, j6, lit_time, q4 + lit_close);
    let j7 = j6 + lit_time.len();
    lemma_prefix_split(s, j7, q4, lit_close);
    lemma_parse_time_image(s, j7, t.add_time);
    let j8 = j7 + q4.len();
    assert(q4.len() == 25);
    assert(parse_lit(s, j8, lit_close) == Some(j8 + lit_close.len()));
    let parsed = parse_task(s, i)->0;
    assert(parsed.0 == t);
    assert(parsed.1 == i + task_image(t).len());
}

/// Reading back the comma-separated remainder of an array yields the same
/// task sequence.
#[verifier::rlimit(100)]
#[verifier::spinoff_prover]
pub proof fn lemma_parse_tasks_rest_image(s: Seq<char>, i: int, ts: Seq<TaskView>)
    requires
        forall|k: int| 0 <= k < ts.len() ==> (#[trigger] ts[k]).wf(),
        has_prefix(s, i, tasks_image_rest(ts) + seq![']']),
    ensures
        parse_tasks_rest(s, i) == Some((ts, i + tasks_image_rest(ts).len() + 1)),
    decreases ts.len(),
{
    if ts.len() == 0 {
        assert(tasks_image_rest(ts) == Seq::<char>::empty());
        assert((tasks_image_rest(ts) + seq![']'])[0] == ']');
        lemma_prefix_index(s, i, tasks_image_rest(ts) + seq![']'], 0);
        assert(ts =~= Seq::<TaskView>::empty());
    } else {
        reveal_strlit("{\"name\":");
        let t0 = ts[0];
        let ts1 = ts.drop_first();
        let img = task_image(t0);
        let rest1 = tasks_image_rest(ts1);
        assert(tasks_image_rest(ts) == seq![','] + img + rest1);
        assert(tasks_image_rest(ts) + seq![']'] =~= seq![','] + (img + (rest1 + seq![']'])));
        lemma_prefix_split(s, i, seq![','], img + (rest1 + seq![']']));
        lemma_prefix_index(s, i, seq![','], 0);
        lemma_prefix_split(s, i + 1, img, rest1 + seq![']']);
        assert(img.len() >= "{\"name\":"@.len());
        lemma_parse_task_image(s, i + 1, t0);
        let j = i + 1 + img.len();
        assert(forall|k: int| 0 <= k < ts1.len() ==> (#[trigger] ts1[k]).wf()) by {
            assert(forall|k: int| 0 <= k < ts1.len() ==> ts1[k] == ts[k + 1]);
        }
        lemma_parse_tasks_rest_image(s, j, ts1);
        assert(seq![t0] + ts1 =~= ts);
    }
}

/// The structure of a non-empty array image: the bracket, the first
/// object, then the comma-separated remainder and the closing bracket.
#[verifier::rlimit(100)]
#[verifier::spinoff_prover]
proof fn lemma_array_shape(ts: Seq<TaskView>)
    requires
        ts.len() > 0,
    ensures
        tasks_image(ts)[0] == '[',
        has_prefix(tasks_image(ts), 1, task_image(ts[0])),
        has_prefix(
            tasks_image(ts),
            1 + task_image(ts[0]).len() as int,
            tasks_image_rest(ts.drop_first()) + seq![']'],
        ),
        tasks_image(ts).len() == 2 + task_image(ts[0]).len() + tasks_image_rest(
            ts.drop_first(),
        ).len(),
{
    let s = tasks_image(ts);
    let img = task_image(ts[0]);
    let rest1 = tasks_image_rest(ts.drop_first());
    assert(s == seq!['['] + img + rest1 + seq![']']);
    assert(s =~= seq!['['] + (img + (rest1 + seq![']'])));
    assert(s.subrange(0, s.len() as int) =~= s);
    assert(has_prefix(s, 0, seq!['['] + (img + (rest1 + seq![']']))));
    lemma_prefix_split(s, 0, seq!['['], img + (rest1 + seq![']']));
    lemma_prefix_index(s, 0, seq!['['], 0);
    lemma_prefix_split(s, 1, img, rest1 + seq![']']);
}

/// The round-trip law for a non-empty task sequence.
#[verifier::rlimit(100)]
#[verifier::spinoff_prover]
proof fn lemma_tasks_round_trip_nonempty(ts: Seq<TaskView>)
    requires
        ts.len() > 0,
        forall|k: int| 0 <= k < ts.len() ==> (#[trigger] ts[k]).wf(),
    ensures
        parse_tasks(tasks_image(ts)) == Some(ts),
{
    let s = tasks_image(ts);
    reveal_strlit("{\"name\":");
    let t0 = ts[0];
    let ts1 = ts.drop_first();
    let img = task_image(t0);
    let rest1 = tasks_image_rest(ts1);
    lemma_array_shape(ts);
    assert(img.len() >= "{\"name\":"@.len()) by {
        assert(img == "{\"name\":"@ + quoted(t0.name) + ",\"description\":"@ + quoted(
            t0.description,
        ) + ",\"priority\":"@ + prio_lit(t0.priority) + ",\"add_time\":\""@ + time_image(
            t0.add_time,
        ) + "\"}"@);
    }
    assert(s.len() != 2);
    lemma_parse_task_image(s, 1, t0);
    let j = 1 + img.len() as int;
    assert(forall|k: int| 0 <= k < ts1.len() ==> (#[trigger] ts1[k]).wf()) by {
        assert(forall|k: int| 0 <= k < ts1.len() ==> ts1[k] == ts[k + 1]);
    }
    lemma_parse_tasks_rest_image(s, j, ts1);
    assert(seq![t0] + ts1 =~= ts);
    assert(j + rest1.len() + 1 == s.len());
}

/// The round-trip law of the persistence format: parsing the encoded image
/// of any representable task sequence yields that sequence again.
pub proof fn lemma_tasks_round_trip(ts: Seq<TaskView>)
    requires
        forall|k: int| 0 <= k < ts.len() ==> (#[trigger] ts[k]).wf(),
    ensures
        parse_tasks(tasks_image(ts)) == Some(ts),
{
    if ts.len() == 0 {
        let s = tasks_image(ts);
        reveal_strlit("[]");
        assert(s.len() == 2);
        assert(s[0] == '[');
        assert(s[1] == ']');
        assert(ts =~= Seq::<TaskView>::empty());
    } else {
        lemma_tasks_round_trip_nonempty(ts);
    }
}

} // verus!
