//! Text handling: Unicode white space, words, trimming, joining and quoting.

use vstd::prelude::*;

verus! {

/// The Unicode `White_Space` property, the set that `char::is_whitespace`,
/// `str::trim` and `str::split_whitespace` go by.
pub open spec fn is_white_space(c: char) -> bool {
    let u = c as u32;
    ||| 0x9 <= u <= 0xd
    ||| u == 0x20
    ||| u == 0x85
    ||| u == 0xa0
    ||| u == 0x1680
    ||| 0x2000 <= u <= 0x200a
    ||| u == 0x2028
    ||| u == 0x2029
    ||| u == 0x202f
    ||| u == 0x205f
    ||| u == 0x3000
}

/// Whether `c` is Unicode white space.
pub fn is_white_space_char(c: char) -> (r: bool)
    ensures
        r == is_white_space(c),
{
    let u = c as u32;
    (0x9 <= u && u <= 0xd) || u == 0x20 || u == 0x85 || u == 0xa0 || u == 0x1680 || (0x2000
        <= u && u <= 0x200a) || u == 0x2028 || u == 0x2029 || u == 0x202f || u == 0x205f || u
        == 0x3000
}

/// The first position at or after `i` that does not hold white space (or the end).
pub open spec fn skip_white(s: Seq<char>, i: int) -> int
    decreases s.len() - i,
{
    if 0 <= i < s.len() && is_white_space(s[i]) {
        skip_white(s, i + 1)
    } else {
        i
    }
}

/// The first position at or after `i` that holds white space (or the end).
pub open spec fn skip_word(s: Seq<char>, i: int) -> int
    decreases s.len() - i,
{
    if 0 <= i < s.len() && !is_white_space(s[i]) {
        skip_word(s, i + 1)
    } else {
        i
    }
}

/// The last position at or before `j` that follows a character other than white space
/// (or the start).
pub open spec fn trim_end_at(s: Seq<char>, j: int) -> int
    decreases j,
{
    if 0 < j <= s.len() && is_white_space(s[j - 1]) {
        trim_end_at(s, j - 1)
    } else {
        j
    }
}

/// The first white-space separated word of `s`, empty when `s` holds none.
pub open spec fn first_word(s: Seq<char>) -> Seq<char> {
    s.subrange(skip_white(s, 0), skip_word(s, skip_white(s, 0)))
}

/// `s` without its leading and trailing white space.
pub open spec fn trimmed(s: Seq<char>) -> Seq<char> {
    if skip_white(s, 0) == s.len() {
        Seq::empty()
    } else {
        s.subrange(skip_white(s, 0), trim_end_at(s, s.len() as int))
    }
}

pub proof fn lemma_skip_white_bounds(s: Seq<char>, i: int)
    requires
        0 <= i <= s.len(),
    ensures
        i <= skip_white(s, i) <= s.len(),
        skip_white(s, i) < s.len() ==> !is_white_space(s[skip_white(s, i)]),
        forall|k: int| i <= k < skip_white(s, i) ==> is_white_space(#[trigger] s[k]),
    decreases s.len() - i,
{
    if i < s.len() && is_white_space(s[i]) {
        lemma_skip_white_bounds(s, i + 1);
    }
}

pub proof fn lemma_skip_word_bounds(s: Seq<char>, i: int)
    requires
        0 <= i <= s.len(),
    ensures
        i <= skip_word(s, i) <= s.len(),
        skip_word(s, i) < s.len() ==> is_white_space(s[skip_word(s, i)]),
        forall|k: int| i <= k < skip_word(s, i) ==> !is_white_space(#[trigger] s[k]),
    decreases s.len() - i,
{
    if i < s.len() && !is_white_space(s[i]) {
        lemma_skip_word_bounds(s, i + 1);
    }
}

pub proof fn lemma_trim_end_bounds(s: Seq<char>, j: int, a: int)
    requires
        0 <= a < j <= s.len(),
        !is_white_space(s[a]),
    ensures
        a < trim_end_at(s, j) <= j,
        !is_white_space(s[trim_end_at(s, j) - 1]),
        forall|k: int| trim_end_at(s, j) <= k < j ==> is_white_space(#[trigger] s[k]),
    decreases j,
{
    if is_white_space(s[j - 1]) {
        lemma_trim_end_bounds(s, j - 1, a);
    }
}

/// The characters of `s`, one by one.
pub fn chars_of(s: &str) -> (r: Vec<char>)
    ensures
        r@ == s@,
{
    let n = s.unicode_len();
    let mut r: Vec<char> = Vec::new();
    let mut i: usize = 0;
    while i < n
        invariant
            n == s@.len(),
            i <= n,
            r@ == s@.subrange(0, i as int),
        decreases n - i,
    {
        r.push(s.get_char(i));
        i = i + 1;
    }
    assert(r@ == s@);
    r
}

/// The first white-space separated word of `s`.
pub fn first_word_of(s: &str) -> (w: String)
    ensures
        w@ == first_word(s@),
{
    let cs = chars_of(s);
    let n = cs.len();
    let mut i: usize = 0;
    while i < n && is_white_space_char(cs[i])
        invariant
            n == s@.len(),
            cs@ == s@,
            i <= n,
            skip_white(s@, i as int) == skip_white(s@, 0),
        decreases n - i,
    {
        i = i + 1;
    }
    let mut j: usize = i;
    while j < n && !is_white_space_char(cs[j])
        invariant
            n == s@.len(),
            cs@ == s@,
            i <= j <= n,
            skip_white(s@, 0) == i,
            skip_word(s@, j as int) == skip_word(s@, i as int),
        decreases n - j,
    {
        j = j + 1;
    }
    String::from_str(s.substring_char(i, j))
}

/// `String::push`: appends the character `c` to the end of `s`.
#[verifier::external_body]
fn push_char(s: &mut String, c: char)
    ensures
        final(s)@ == old(s)@.push(c),
{
    s.push(c);
}

/// `s` without its leading and trailing white space.
pub fn trim_text(s: &str) -> (r: String)
    ensures
        r@ == trimmed(s@),
{
    let cs = chars_of(s);
    let n = cs.len();
    let mut i: usize = 0;
    while i < n && is_white_space_char(cs[i])
        invariant
            n == s@.len(),
            cs@ == s@,
            i <= n,
            skip_white(s@, i as int) == skip_white(s@, 0),
        decreases n - i,
    {
        i = i + 1;
    }
    if i == n {
        return String::new();
    }
    proof {
        lemma_skip_white_bounds(s@, 0);
    }
    let mut j: usize = n;
    while j > 0 && is_white_space_char(cs[j - 1])
        invariant
            n == s@.len(),
            cs@ == s@,
            j <= n,
            trim_end_at(s@, j as int) == trim_end_at(s@, n as int),
        decreases j,
    {
        j = j - 1;
    }
    proof {
        lemma_trim_end_bounds(s@, n as int, i as int);
    }
    String::from_str(s.substring_char(i, j))
}

/// The words of `words` with `sep` between each two of them.
pub open spec fn joined(words: Seq<Seq<char>>, sep: Seq<char>) -> Seq<char>
    decreases words.len(),
{
    if words.len() == 0 {
        Seq::empty()
    } else if words.len() == 1 {
        words[0]
    } else {
        joined(words.drop_last(), sep) + sep + words.last()
    }
}

/// The views of a list of strings.
pub open spec fn views(v: Seq<String>) -> Seq<Seq<char>> {
    v.map_values(|x: String| x@)
}

/// `words` joined with `sep` between each two of them (`[String]::join`).
pub fn join_with(words: &Vec<String>, sep: &str) -> (r: String)
    ensures
        r@ == joined(views(words@), sep@),
{
    let mut r = String::new();
    let n = words.len();
    let mut i: usize = 0;
    while i < n
        invariant
            n == words@.len(),
            i <= n,
            r@ == joined(views(words@).take(i as int), sep@),
        decreases n - i,
    {
        let ghost before = views(words@).take(i as int);
        if i > 0 {
            r.append(sep);
        }
        r.append(words[i].as_str());
        proof {
            let after = views(words@).take(i + 1);
            assert(after.drop_last() =~= before);
            assert(after.last() == words@[i as int]@);
            if i == 0 {
                assert(before =~= Seq::<Seq<char>>::empty());
            }
        }
        i = i + 1;
    }
    assert(views(words@).take(n as int) =~= views(words@));
    r
}

/// `s` with every double quote replaced by a single quote.
pub open spec fn quotes_softened(s: Seq<char>) -> Seq<char> {
    s.map_values(|c: char| if c == '"' { '\'' } else { c })
}

/// `s` with every double quote replaced by a single quote (`str::replace('"', "'")`).
pub fn soften_quotes(s: &str) -> (r: String)
    ensures
        r@ == quotes_softened(s@),
{
    let cs = chars_of(s);
    let n = cs.len();
    let mut r = String::new();
    let mut i: usize = 0;
    while i < n
        invariant
            n == s@.len(),
            cs@ == s@,
            i <= n,
            r@ == quotes_softened(s@.take(i as int)),
        decreases n - i,
    {
        let c = cs[i];
        if c == '"' {
            push_char(&mut r, '\'');
        } else {
            push_char(&mut r, c);
        }
        assert(quotes_softened(s@.take(i + 1)) =~= quotes_softened(s@.take(i as int)).push(
            if c == '"' { '\'' } else { c },
        ));
        i = i + 1;
    }
    assert(s@.take(n as int) =~= s@);
    r
}

/// The command and its arguments as one line: `"{command} {args joined by spaces}"`.
pub open spec fn spaced_command(command: Seq<char>, args: Seq<Seq<char>>) -> Seq<char> {
    command + " "@ + joined(args, " "@)
}

/// The command and its arguments as one line, as the compare report shows it.
pub fn spaced_command_line(command: &str, args: &Vec<String>) -> (r: String)
    ensures
        r@ == spaced_command(command@, views(args@)),
{
    let mut r = String::from_str(command);
    r.append(" ");
    let rest = join_with(args, " ");
    r.append(rest.as_str());
    r
}

/// The command line recorded in the history and in JSON output: the command and its
/// arguments separated by spaces, without surrounding white space.
pub fn command_line(command: &str, args: &Vec<String>) -> (r: String)
    ensures
        r@ == trimmed(spaced_command(command@, views(args@))),
{
    let line = spaced_command_line(command, args);
    trim_text(line.as_str())
}

/// The command and its arguments as a notification shows it: the arguments follow after
/// one space, and there is no trailing space when there are none.
pub open spec fn shown_command(command: Seq<char>, args: Seq<Seq<char>>) -> Seq<char> {
    if args.len() == 0 {
        command
    } else {
        command + " "@ + joined(args, " "@)
    }
}

/// The command and its arguments as a notification body shows them.
pub fn shown_command_line(command: &str, args: &Vec<String>) -> (r: String)
    ensures
        r@ == shown_command(command@, views(args@)),
{
    if args.len() == 0 {
        String::from_str(command)
    } else {
        spaced_command_line(command, args)
    }
}

/// The first word holds no white space, and only white space comes before it.
pub proof fn law_first_word_is_a_word(s: Seq<char>)
    ensures
        forall|k: int| 0 <= k < first_word(s).len() ==> !is_white_space(#[trigger] first_word(s)[k]),
        forall|k: int| 0 <= k < skip_white(s, 0) ==> is_white_space(#[trigger] s[k]),
        first_word(s).len() == 0 <==> forall|k: int| 0 <= k < s.len() ==> is_white_space(
            #[trigger] s[k],
        ),
{
    lemma_skip_white_bounds(s, 0);
    let a = skip_white(s, 0);
    lemma_skip_word_bounds(s, a);
    if a < s.len() {
        assert(skip_word(s, a) > a);
        assert(!is_white_space(s[a]));
    }
    assert forall|k: int| 0 <= k < first_word(s).len() implies !is_white_space(
        #[trigger] first_word(s)[k],
    ) by {
        assert(first_word(s)[k] == s[a + k]);
    }
}

/// A trimmed text neither starts nor ends with white space, and is empty only when the
/// text is all white space.
pub proof fn law_trimmed_has_no_outer_space(s: Seq<char>)
    ensures
        trimmed(s).len() > 0 ==> !is_white_space(trimmed(s)[0]) && !is_white_space(
            trimmed(s).last(),
        ),
        trimmed(s).len() == 0 <==> forall|k: int| 0 <= k < s.len() ==> is_white_space(
            #[trigger] s[k],
        ),
{
    lemma_skip_white_bounds(s, 0);
    let a = skip_white(s, 0);
    if a < s.len() {
        lemma_trim_end_bounds(s, s.len() as int, a);
        assert(!is_white_space(s[a]));
        assert(trimmed(s)[0] == s[a]);
    }
}

/// A softened text holds no double quote, so it cannot end a quoted AppleScript string.
pub proof fn law_softened_has_no_double_quote(s: Seq<char>)
    ensures
        quotes_softened(s).len() == s.len(),
        forall|k: int| 0 <= k < s.len() ==> #[trigger] quotes_softened(s)[k] != '"',
{
}

/// The lengths of `words`, added up.
pub open spec fn total_length(words: Seq<Seq<char>>) -> nat
    decreases words.len(),
{
    if words.len() == 0 {
        0
    } else {
        total_length(words.drop_last()) + words.last().len()
    }
}

/// Joining keeps every word: one more word adds the separator and that word at the end,
/// and the joined text is as long as all words plus one separator between each two.
pub proof fn law_join_keeps_every_word(words: Seq<Seq<char>>, sep: Seq<char>, w: Seq<char>)
    ensures
        words.len() > 0 ==> joined(words.push(w), sep) == joined(words, sep) + sep + w,
        words.len() == 0 ==> joined(words.push(w), sep) == w,
        words.len() > 0 ==> joined(words, sep).len() == total_length(words) + (words.len() - 1)
            * sep.len(),
        words.len() == 0 ==> joined(words, sep).len() == 0,
    decreases words.len(),
{
    assert(words.push(w).drop_last() =~= words);
    if words.len() > 1 {
        law_join_keeps_every_word(words.drop_last(), sep, words.last());
        assert(joined(words, sep).len() == joined(words.drop_last(), sep).len() + sep.len()
            + words.last().len());
        assert((words.len() - 2) * sep.len() + sep.len() == (words.len() - 1) * sep.len())
            by (nonlinear_arith);
    } else if words.len() == 1 {
        assert(words.drop_last().len() == 0);
        assert(total_length(words.drop_last()) == 0);
    }
}

} // verus!
