//! The installed updater, and what the agent sends of its log: the last lines of the newest
//! file.
use vstd::prelude::*;

use crate::config::{below, Place};
use crate::text::{chars_of, ends_with, has_end, part, pieces, split, split_at, string_of, texts};

verus! {

/// The program that runs the installed updater, below the directory of Windows.
pub fn updater_program<T>(system_root: Option<T>) -> (r: Result<Place<T>, String>)
    ensures
        match system_root {
            Some(root) => r is Ok && r->Ok_0.root == root && texts(r->Ok_0.names@) == seq![
                "System32"@,
                "WindowsPowerShell"@,
                "v1.0"@,
                "powershell.exe"@,
            ],
            None => r is Err && r->Err_0@ == "SystemRoot missing"@,
        },
{
    match system_root {
        None => Err("SystemRoot missing".to_owned()),
        Some(root) => {
            let top = Place { root, names: Vec::new() };
            assert(texts(top.names@) =~= Seq::<Seq<char>>::empty());
            let a = below(below(Ok(top), "System32"), "WindowsPowerShell");
            let r = below(below(a, "v1.0"), "powershell.exe");
            assert(texts(r->Ok_0.names@) =~= seq![
                "System32"@,
                "WindowsPowerShell"@,
                "v1.0"@,
                "powershell.exe"@,
            ]);
            r
        },
    }
}

/// The options of that program, which come before the installed script. They are always the
/// same: nothing that the server says is run.
pub fn updater_options() -> (r: Vec<String>)
    ensures
        texts(r@) == seq!["-NoProfile"@, "-NonInteractive"@, "-ExecutionPolicy"@, "Bypass"@, "-File"@],
{
    let mut out: Vec<String> = Vec::new();
    out.push("-NoProfile".to_owned());
    out.push("-NonInteractive".to_owned());
    out.push("-ExecutionPolicy".to_owned());
    out.push("Bypass".to_owned());
    out.push("-File".to_owned());
    assert(texts(out@) =~= seq!["-NoProfile"@, "-NonInteractive"@, "-ExecutionPolicy"@, "Bypass"@, "-File"@]);
    out
}

/// The most bytes that are read of a log, from its end.
pub const LOG_BYTES: u64 = 65_536;

/// The most lines that are sent.
pub const LOG_LINES: usize = 200;

/// Whether a file is a log: its name ends in `.log`, and is not that alone.
pub open spec fn is_log(name: Seq<char>) -> bool {
    name.len() > 4 && ends_with(name, ".log"@)
}

/// Whether a name comes before another: by the first character in which they differ, or
/// because it is the beginning of the other.
pub open spec fn name_before(a: Seq<char>, b: Seq<char>) -> bool
    decreases a.len(),
{
    if b.len() == 0 {
        false
    } else if a.len() == 0 {
        true
    } else if a[0] != b[0] {
        a[0] < b[0]
    } else {
        name_before(a.skip(1), b.skip(1))
    }
}

fn comes_before(a: &Vec<char>, b: &Vec<char>) -> (r: bool)
    ensures
        r == name_before(a@, b@),
{
    let mut i: usize = 0;
    assert(a@.skip(0) == a@);
    assert(b@.skip(0) == b@);
    while i < a.len() && i < b.len()
        invariant
            i <= a.len(),
            i <= b.len(),
            name_before(a@.skip(i as int), b@.skip(i as int)) == name_before(a@, b@),
        decreases a.len() - i,
    {
        assert(a@.skip(i as int)[0] == a@[i as int]);
        assert(b@.skip(i as int)[0] == b@[i as int]);
        assert(a@.skip(i as int).skip(1) == a@.skip(i + 1));
        assert(b@.skip(i as int).skip(1) == b@.skip(i + 1));
        if a[i] != b[i] {
            return a[i] < b[i];
        }
        i += 1;
    }
    i < b.len()
}

/// The order of names: none comes before itself, and of two different ones exactly one
/// comes before the other.
proof fn lemma_name_order(a: Seq<char>, b: Seq<char>)
    ensures
        !name_before(a, a),
        a != b ==> (name_before(a, b) <==> !name_before(b, a)),
    decreases a.len(),
{
    if a.len() > 0 {
        lemma_name_order(a.skip(1), a.skip(1));
        if b.len() > 0 && a[0] == b[0] {
            lemma_name_order(a.skip(1), b.skip(1));
            if a.skip(1) == b.skip(1) {
                assert(a =~= seq![a[0]] + a.skip(1));
                assert(b =~= seq![b[0]] + b.skip(1));
            }
        }
    } else if b.len() == 0 {
        assert(a =~= b);
    }
}

proof fn lemma_name_transitive(a: Seq<char>, b: Seq<char>, c: Seq<char>)
    requires
        name_before(a, b),
        name_before(b, c),
    ensures
        name_before(a, c),
    decreases a.len(),
{
    if a.len() > 0 && b.len() > 0 && c.len() > 0 && a[0] == b[0] && b[0] == c[0] {
        lemma_name_transitive(a.skip(1), b.skip(1), c.skip(1));
    }
}

/// Whether this is the newest log among files, by its place, or there is none.
pub open spec fn is_newest(names: Seq<Seq<char>>, place: Option<usize>) -> bool {
    match place {
        Some(i) => {
            &&& i < names.len()
            &&& is_log(names[i as int])
            &&& forall|j: int| 0 <= j < names.len() && is_log(#[trigger] names[j]) ==> !name_before(names[i as int], names[j])
        },
        None => forall|j: int| 0 <= j < names.len() ==> !is_log(#[trigger] names[j]),
    }
}

/// The newest log among files: the last by its name, since a name holds its day. None
/// where there is no log.
pub fn newest_log(names: &Vec<String>) -> (r: Option<usize>)
    ensures
        is_newest(texts(names@), r),
{
    let suffix = chars_of(".log");
    let mut best: Option<usize> = None;
    for i in 0..names.len()
        invariant
            suffix@ == ".log"@,
            match best {
                Some(b) => {
                    &&& b < i
                    &&& is_log(texts(names@)[b as int])
                    &&& forall|j: int|
                        0 <= j < i && is_log(#[trigger] texts(names@)[j]) ==> !name_before(
                            texts(names@)[b as int],
                            texts(names@)[j],
                        )
                },
                None => forall|j: int| 0 <= j < i ==> !is_log(#[trigger] texts(names@)[j]),
            },
    {
        let name = chars_of(names[i].as_str());
        assert(name@ == texts(names@)[i as int]);
        if name.len() > 4 && has_end(&name, &suffix) {
            match best {
                None => {
                    proof {
                        lemma_name_order(name@, name@);
                    }
                    best = Some(i);
                },
                Some(b) => {
                    let current = chars_of(names[b].as_str());
                    assert(current@ == texts(names@)[b as int]);
                    if comes_before(&current, &name) {
                        proof {
                            assert forall|j: int|
                                0 <= j < i + 1 && is_log(#[trigger] texts(names@)[j]) implies !name_before(
                                name@,
                                texts(names@)[j],
                            ) by {
                                if j < i {
                                    if name_before(name@, texts(names@)[j]) {
                                        lemma_name_transitive(current@, name@, texts(names@)[j]);
                                    }
                                } else {
                                    lemma_name_order(name@, name@);
                                }
                            }
                        }
                        best = Some(i);
                    }
                },
            }
        }
    }
    best
}

/// Where reading a log of so many bytes begins.
pub open spec fn tail_from(length: u64) -> u64 {
    if length > LOG_BYTES {
        (length - LOG_BYTES) as u64
    } else {
        0
    }
}

/// Where reading a log of so many bytes begins.
pub fn tail_start(length: u64) -> (r: u64)
    ensures
        r == tail_from(length),
{
    if length > LOG_BYTES {
        length - LOG_BYTES
    } else {
        0
    }
}

/// A line without the carriage return before its end.
pub open spec fn without_return(line: Seq<char>) -> Seq<char> {
    if line.len() > 0 && line.last() == '\r' {
        line.drop_last()
    } else {
        line
    }
}

/// The lines of a text: what stands before each line feed, without a carriage return
/// directly before it, and what stands after the last one, if anything does.
pub open spec fn lines_of(text: Seq<char>) -> Seq<Seq<char>> {
    let parts = split(text, '\n');
    let whole = Seq::new((parts.len() - 1) as nat, |i: int| without_return(parts[i]));
    if parts.last().len() == 0 {
        whole
    } else {
        whole.push(parts.last())
    }
}

/// The last entries of a sequence, at most `n` of them.
pub open spec fn last_of(s: Seq<Seq<char>>, n: int) -> Seq<Seq<char>> {
    if s.len() <= n {
        s
    } else {
        s.skip(s.len() - n)
    }
}

/// The lines of a text that are sent.
pub open spec fn sent_lines(text: Seq<char>) -> Seq<Seq<char>> {
    last_of(lines_of(text), LOG_LINES as int)
}

/// What is sent of a log is limited, and is its end.
pub proof fn law_logs_are_limited(lines: Seq<Seq<char>>)
    ensures
        last_of(lines, LOG_LINES as int).len() <= LOG_LINES,
        last_of(lines, LOG_LINES as int) == lines.skip(lines.len() - last_of(lines, LOG_LINES as int).len()),
{
    assert(lines.skip(0) =~= lines);
}

/// The last lines of a text, at most as many as are sent.
pub fn last_lines(text: &str) -> (r: Vec<String>)
    ensures
        texts(r@) == sent_lines(text@),
{
    let parts = split_at(&chars_of(text), '\n');
    let ghost all = split(text@, '\n');
    assert(pieces(parts@) == all);
    proof {
        crate::text::lemma_split_nonempty(text@, '\n');
    }
    let n: usize = parts.len();
    assert(pieces(parts@).last() == parts@[n - 1]@);
    let count: usize = if parts[n - 1].len() == 0 {
        n - 1
    } else {
        n
    };
    let start: usize = if count > LOG_LINES {
        count - LOG_LINES
    } else {
        0
    };
    let ghost lines = lines_of(text@);
    assert(lines.len() == count);
    let mut out: Vec<String> = Vec::new();
    for i in start..count
        invariant
            n == parts.len(),
            n > 0,
            count == n || count == n - 1,
            count == n ==> parts@[n - 1]@.len() > 0,
            count == n - 1 ==> parts@[n - 1]@.len() == 0,
            start <= count,
            pieces(parts@) == split(text@, '\n'),
            lines == lines_of(text@),
            lines.len() == count,
            texts(out@) == lines.subrange(start as int, i as int),
    {
        let line = &parts[i];
        assert(pieces(parts@)[i as int] == line@);
        let shown = if i < n - 1 && line.len() > 0 && line[line.len() - 1] == '\r' {
            let short = part(line, 0, line.len() - 1);
            assert(short@ == line@.drop_last());
            string_of(&short)
        } else {
            string_of(line)
        };
        assert(shown@ == lines[i as int]);
        let ghost before = out@;
        out.push(shown);
        assert(texts(out@) == texts(before).push(lines[i as int]));
        assert(lines.subrange(start as int, i + 1) == lines.subrange(start as int, i as int).push(lines[i as int]));
    }
    assert(lines.subrange(start as int, count as int) == last_of(lines, LOG_LINES as int));
    out
}

/// The text that std reads from bytes, with what is not UTF-8 replaced.
pub uninterp spec fn lossy_text(bytes: Seq<u8>) -> Seq<char>;

/// `String::from_utf8_lossy`. The text is a function of the bytes alone; what exactly
/// replaces bytes that are not UTF-8 is left unsaid.
#[verifier::external_body]
fn read_lossy(bytes: &Vec<u8>) -> (r: String)
    ensures
        r@ == lossy_text(bytes@),
{
    String::from_utf8_lossy(bytes).into_owned()
}

/// The lines of a log that are sent, from the bytes at its end.
pub fn log_lines(bytes: &Vec<u8>) -> (r: Vec<String>)
    ensures
        texts(r@) == sent_lines(lossy_text(bytes@)),
{
    let text = read_lossy(bytes);
    last_lines(text.as_str())
}

/// A log is read from its end: all of it where it has no more than 65536 bytes, else the last 65536.
pub proof fn law_logs_are_read_from_their_end(length: u64)
    ensures
        length <= 65536 ==> tail_from(length) == 0,
        length > 65536 ==> length - tail_from(length) == 65536,
{
}

/// A file is a log exactly where its name ends in `.log` after something else.
pub proof fn law_logs_are_named_so(stem: Seq<char>, name: Seq<char>)
    ensures
        stem.len() > 0 ==> is_log(stem + seq!['.', 'l', 'o', 'g']),
        is_log(name) ==> name.len() > 4 && name == name.take(name.len() - 4) + seq!['.', 'l', 'o', 'g'],
{
    reveal_strlit(".log");
    assert(".log"@ =~= seq!['.', 'l', 'o', 'g']);
    crate::text::law_ends_are_what_follows(stem, name, ".log"@);
}

/// A name comes before another exactly where the first character in which they differ is the
/// smaller one, or where it is only a beginning of the other.
pub proof fn law_names_are_ordered_by_their_first_difference(a: Seq<char>, b: Seq<char>, k: int)
    requires
        0 <= k <= a.len(),
        k <= b.len(),
        forall|i: int| 0 <= i < k ==> a[i] == b[i],
        k < a.len() && k < b.len() ==> a[k] != b[k],
        k < a.len() && k < b.len() || k == a.len() || k == b.len(),
    ensures
        name_before(a, b) <==> (k < a.len() && k < b.len() && (a[k] as int) < b[k] as int) || (k == a.len() && k
            < b.len()),
    decreases k,
{
    if k > 0 {
        let c = a.skip(1);
        let d = b.skip(1);
        assert(a[0] == b[0]);
        assert forall|i: int| 0 <= i < k - 1 implies c[i] == d[i] by {
            assert(a[i + 1] == b[i + 1]);
        }
        law_names_are_ordered_by_their_first_difference(c, d, k - 1);
    }
}

/// The newest log is a log, and no log comes after it; there is none exactly where no file is a
/// log.
pub proof fn law_the_newest_log_is_the_last(names: Seq<Seq<char>>, place: Option<usize>, j: int)
    requires
        is_newest(names, place),
        0 <= j < names.len(),
        is_log(names[j]),
    ensures
        place is Some,
        place->Some_0 < names.len() && is_log(names[place->Some_0 as int]),
        names[j] == names[place->Some_0 as int] || name_before(names[j], names[place->Some_0 as int]),
{
    lemma_name_order(names[j], names[place->Some_0 as int]);
}

/// The lines of a text are what stands before its line feeds, one after another, without a carriage
/// return directly before, and what follows the last one where that is something.
pub proof fn law_lines_end_at_line_feeds(line: Seq<char>, rest: Seq<char>)
    requires
        !line.contains('\n'),
    ensures
        lines_of(Seq::empty()).len() == 0,
        line.len() > 0 ==> lines_of(line) == seq![line],
        lines_of(line.push('\n') + rest) == seq![
            if line.len() > 0 && line.last() == '\r' {
                line.drop_last()
            } else {
                line
            },
        ] + lines_of(rest),
{
    reveal_with_fuel(split, 2);
    assert(split(Seq::<char>::empty(), '\n') =~= seq![Seq::<char>::empty()]);
    lemma_split_line(line, rest);
    let a = split(line, '\n');
    let b = split(rest, '\n');
    let c = split(line.push('\n') + rest, '\n');
    crate::text::lemma_split_nonempty(rest, '\n');
    assert(a =~= seq![line]);
    assert(c =~= seq![line] + b);
    assert(line.len() > 0 ==> lines_of(line) =~= seq![line]);
    assert(c.last() == b.last());
    assert(lines_of(line.push('\n') + rest) =~= seq![without_return(line)] + lines_of(rest));
}

proof fn lemma_split_line(line: Seq<char>, rest: Seq<char>)
    requires
        !line.contains('\n'),
    ensures
        split(line, '\n') == seq![line],
        split(line.push('\n') + rest, '\n') == seq![line] + split(rest, '\n'),
    decreases rest.len(), line.len(),
{
    reveal_with_fuel(split, 2);
    if rest.len() == 0 {
        if line.len() > 0 {
            let front = line.drop_last();
            assert(!front.contains('\n')) by {
                if front.contains('\n') {
                    let k = choose|k: int| 0 <= k < front.len() && front[k] == '\n';
                    assert(line[k] == '\n');
                }
            }
            lemma_split_line(front, rest);
            assert(line[line.len() - 1] != '\n');
            assert(split(line, '\n') =~= seq![line]) by {
                assert(front.push(line.last()) =~= line);
            }
        } else {
            assert(line =~= Seq::<char>::empty());
            assert(split(line, '\n') =~= seq![line]);
        }
        assert(rest =~= Seq::<char>::empty());
        assert(line.push('\n') + rest =~= line.push('\n'));
        assert(line.push('\n').drop_last() =~= line);
        assert(split(line.push('\n') + rest, '\n') =~= seq![line] + split(rest, '\n'));
    } else {
        let front = rest.drop_last();
        lemma_split_line(line, front);
        crate::text::lemma_split_nonempty(front, '\n');
        let whole = line.push('\n') + rest;
        assert(whole.drop_last() =~= line.push('\n') + front);
        assert(whole.last() == rest.last());
        assert(split(whole, '\n') =~= seq![line] + split(rest, '\n'));
    }
}

/// Of the lines of a log the last two hundred are sent, or all where there are no more.
pub proof fn law_the_last_two_hundred_lines_are_sent(text: Seq<char>)
    ensures
        lines_of(text).len() <= 200 ==> sent_lines(text) == lines_of(text),
        lines_of(text).len() > 200 ==> sent_lines(text) == lines_of(text).skip(lines_of(text).len() - 200),
{
}

} // verus!
