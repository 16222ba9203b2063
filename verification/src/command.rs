//! The console command language: one command is `name=value` (set a
//! variable), `name<op>=value` with `<op>` one of `* / + -` (update a
//! variable in place), or one of the keywords `export`, `zoom` and
//! `reloadshader`.
use crate::text::{
    chars_equal_str, chars_of, filter_spaces, find_char, first_pos, is_ascii_char, lemma_first_pos,
    lemma_first_pos_unique, string_from_chars, without_spaces,
};
use vstd::prelude::*;
use vstd::std_specs::ops::{AddSpec, DivSpec, MulSpec, SubSpec};

verus! {

/// The arithmetic that an update command applies to its variable.
#[derive(Clone, Copy, Debug, PartialEq, Eq)]
pub enum Action {
    Multiply,
    Divide,
    Add,
    Subtract,
}

/// Whether `target <op> value` is defined for the action's operator
/// (for the integers: no overflow and no division by zero).
pub open spec fn action_req<T>(action: Action, target: T, value: T) -> bool
    where
        T: core::ops::Add<Output = T> + core::ops::Div<Output = T> + core::ops::Sub<
            Output = T,
        > + core::ops::Mul<Output = T>,
{
    match action {
        Action::Multiply => target.mul_req(value),
        Action::Divide => target.div_req(value),
        Action::Add => target.add_req(value),
        Action::Subtract => target.sub_req(value),
    }
}

/// Whether vstd specifies the arithmetic of the action's operator on `T`.
pub open spec fn action_specified<T>(action: Action) -> bool
    where
        T: core::ops::Add<Output = T> + core::ops::Div<Output = T> + core::ops::Sub<
            Output = T,
        > + core::ops::Mul<Output = T>,
{
    match action {
        Action::Multiply => <T as MulSpec>::obeys_mul_spec(),
        Action::Divide => <T as DivSpec>::obeys_div_spec(),
        Action::Add => <T as AddSpec>::obeys_add_spec(),
        Action::Subtract => <T as SubSpec>::obeys_sub_spec(),
    }
}

/// `target <op> value` for the action's operator.
pub open spec fn applied<T>(action: Action, target: T, value: T) -> T
    where
        T: core::ops::Add<Output = T> + core::ops::Div<Output = T> + core::ops::Sub<
            Output = T,
        > + core::ops::Mul<Output = T>,
{
    match action {
        Action::Multiply => target.mul_spec(value),
        Action::Divide => target.div_spec(value),
        Action::Add => target.add_spec(value),
        Action::Subtract => target.sub_spec(value),
    }
}

impl Action {
    /// Applies the action to `target` with `value` as the right operand:
    /// `target = target <op> value`.
    pub fn apply<T>(&self, target: &mut T, value: T)
        where
            T: core::ops::Add<Output = T> + core::ops::Div<Output = T> + core::ops::Sub<
                Output = T,
            > + core::ops::Mul<Output = T> + Copy,
        requires
            action_req(*self, *old(target), value),
        ensures
            action_specified::<T>(*self) ==> *final(target) == applied(*self, *old(target), value),
    {
        match self {
            Action::Multiply => *target = *target * value,
            Action::Divide => *target = *target / value,
            Action::Add => *target = *target + value,
            Action::Subtract => *target = *target - value,
        }
    }
}

/// On integers, subtracting a value undoes adding it, and dividing by a
/// non-zero value undoes multiplying by it, whenever the first step is
/// defined.
pub proof fn lemma_apply_undone(target: i64, value: i64)
    ensures
        action_specified::<i64>(Action::Add) && action_specified::<i64>(Action::Subtract),
        action_specified::<i64>(Action::Multiply) && action_specified::<i64>(Action::Divide),
        action_req(Action::Add, target, value) ==> action_req(
            Action::Subtract,
            applied(Action::Add, target, value),
            value,
        ) && applied(Action::Subtract, applied(Action::Add, target, value), value) == target,
        action_req(Action::Subtract, target, value) ==> action_req(
            Action::Add,
            applied(Action::Subtract, target, value),
            value,
        ) && applied(Action::Add, applied(Action::Subtract, target, value), value) == target,
        value != 0 && action_req(Action::Multiply, target, value) ==> action_req(
            Action::Divide,
            applied(Action::Multiply, target, value),
            value,
        ) && applied(Action::Divide, applied(Action::Multiply, target, value), value) == target,
{
    if value != 0 && action_req(Action::Multiply, target, value) {
        let t = target as int;
        let v = value as int;
        let p = t * v;
        assert(p / v == t) by (nonlinear_arith)
            requires
                p == t * v,
                v != 0,
        ;
        assert((-p) / v == -t) by (nonlinear_arith)
            requires
                p == t * v,
                v != 0,
        ;
        let m = applied(Action::Multiply, target, value);
        assert(m as int == p);
        assert(!(m == i64::MIN && value == -1));
        assert(action_req(Action::Divide, m, value));
        assert(applied(Action::Divide, m, value) == target);
    }
}

/// A parsed console command.
#[derive(Debug, PartialEq, Eq)]
pub enum Command {
    Update { variable_name: String, value: String, action: Action },
    Assign { variable_name: String, value: String },
    Export,
    ToggleZoom,
    ReloadShader,
    Invalid,
}

/// A command with its strings seen as character sequences.
pub enum CommandView {
    Update { variable_name: Seq<char>, value: Seq<char>, action: Action },
    Assign { variable_name: Seq<char>, value: Seq<char> },
    Export,
    ToggleZoom,
    ReloadShader,
    Invalid,
}

impl View for Command {
    type V = CommandView;

    open spec fn view(&self) -> CommandView {
        match self {
            Command::Update { variable_name, value, action } => CommandView::Update {
                variable_name: variable_name@,
                value: value@,
                action: *action,
            },
            Command::Assign { variable_name, value } => CommandView::Assign {
                variable_name: variable_name@,
                value: value@,
            },
            Command::Export => CommandView::Export,
            Command::ToggleZoom => CommandView::ToggleZoom,
            Command::ReloadShader => CommandView::ReloadShader,
            Command::Invalid => CommandView::Invalid,
        }
    }
}

/// The action that an operator character written just before `=` selects.
pub open spec fn action_of(c: char) -> Option<Action> {
    if c == '*' {
        Some(Action::Multiply)
    } else if c == '/' {
        Some(Action::Divide)
    } else if c == '+' {
        Some(Action::Add)
    } else if c == '-' {
        Some(Action::Subtract)
    } else {
        None
    }
}

/// The command that the text `s` stands for. The first `=` splits it into
/// a name and a value; an operator right before that `=` makes it an
/// update and is not part of the name. Without `=`, only the three keywords
/// are commands.
pub open spec fn parse_command(s: Seq<char>) -> CommandView {
    let k = first_pos(s, '=') as int;
    if k < s.len() {
        match action_of(s[k - 1]) {
            Some(action) => CommandView::Update {
                variable_name: s.take(k - 1),
                value: s.skip(k + 1),
                action,
            },
            None => CommandView::Assign { variable_name: s.take(k), value: s.skip(k + 1) },
        }
    } else if s == "export"@ {
        CommandView::Export
    } else if s == "zoom"@ {
        CommandView::ToggleZoom
    } else if s == "reloadshader"@ {
        CommandView::ReloadShader
    } else {
        CommandView::Invalid
    }
}

/// The texts the parser reads: everything before the first `=` (all of the
/// text when there is none) is ASCII, and the text does not start with `=`.
pub open spec fn command_accepted(s: Seq<char>) -> bool {
    let k = first_pos(s, '=') as int;
    &&& forall|j: int| 0 <= j < k ==> is_ascii_char(#[trigger] s[j])
    &&& k < s.len() ==> k > 0
}

impl Command {
    /// Parses one command (spaces are not removed here).
    pub fn from(input: &String) -> (command: Command)
        requires
            command_accepted(input@),
        ensures
            command@ == parse_command(input@),
    {
        let chars = chars_of(input.as_str());
        let k = find_char(&chars, '=');
        proof {
            lemma_first_pos(chars@, '=');
        }
        if k < chars.len() {
            let before = chars[k - 1];
            let action = if before == '*' {
                Action::Multiply
            } else if before == '/' {
                Action::Divide
            } else if before == '+' {
                Action::Add
            } else if before == '-' {
                Action::Subtract
            } else {
                return Command::Assign {
                    variable_name: string_from_chars(&chars, 0, k),
                    value: string_from_chars(&chars, k + 1, chars.len()),
                };
            };
            return Command::Update {
                variable_name: string_from_chars(&chars, 0, k - 1),
                value: string_from_chars(&chars, k + 1, chars.len()),
                action,
            };
        }
        if chars_equal_str(&chars, "export") {
            Command::Export
        } else if chars_equal_str(&chars, "zoom") {
            Command::ToggleZoom
        } else if chars_equal_str(&chars, "reloadshader") {
            Command::ReloadShader
        } else {
            Command::Invalid
        }
    }

    /// Whether `from` reads `input`, that is, whether `input` is in
    /// the domain of the parser.
    pub fn accepts(input: &String) -> (b: bool)
        ensures
            b == command_accepted(input@),
    {
        let chars = chars_of(input.as_str());
        let k = find_char(&chars, '=');
        proof {
            lemma_first_pos(chars@, '=');
        }
        let mut j: usize = 0;
        while j < k
            invariant
                j <= k <= chars@.len(),
                chars@ == input@,
                k == first_pos(chars@, '='),
                forall|i: int| 0 <= i < j ==> is_ascii_char(#[trigger] chars@[i]),
            decreases k - j,
        {
            if (chars[j] as u32) >= 128 {
                return false;
            }
            j = j + 1;
        }
        k == chars.len() || k > 0
    }
}

/// `t` cut at every comma; the commas themselves are dropped.
pub open spec fn split_commas(t: Seq<char>) -> Seq<Seq<char>>
    decreases t.len(),
{
    let k = first_pos(t, ',') as int;
    if k < t.len() {
        seq![t.take(k)] + split_commas(t.skip(k + 1))
    } else {
        seq![t]
    }
}

/// The command texts of a line: a `#` starts a comment that runs to the end
/// of the line, and the rest is a comma separated list.
pub open spec fn command_segments(s: Seq<char>) -> Seq<Seq<char>> {
    split_commas(s.take(first_pos(s, '#') as int))
}

/// The lines that `subdivide_commands` reads: everything before the comment
/// is ASCII, and each command, once its spaces are removed, is one that
/// `Command::from` reads.
pub open spec fn commands_accepted(s: Seq<char>) -> bool {
    &&& forall|j: int| 0 <= j < first_pos(s, '#') ==> is_ascii_char(#[trigger] s[j])
    &&& forall|j: int|
        0 <= j < command_segments(s).len() ==> command_accepted(
            without_spaces(#[trigger] command_segments(s)[j]),
        )
}

/// One step of `split_commas` read from position `begin` of `t`, when the
/// first comma at or after `begin` is at `i`.
proof fn lemma_split_step(t: Seq<char>, begin: int, i: int)
    requires
        0 <= begin <= i < t.len(),
        t[i] == ',',
        forall|j: int| begin <= j < i ==> t[j] != ',',
    ensures
        split_commas(t.subrange(begin, t.len() as int)) == seq![t.subrange(begin, i)]
            + split_commas(t.subrange(i + 1, t.len() as int)),
{
    let u = t.subrange(begin, t.len() as int);
    lemma_first_pos_unique(u, ',', i - begin);
    assert(u.take(i - begin) =~= t.subrange(begin, i));
    assert(u.skip(i - begin + 1) =~= t.subrange(i + 1, t.len() as int));
}

/// The last step of `split_commas`, read from position `begin` of `t`, when
/// no comma follows `begin`.
proof fn lemma_split_last(t: Seq<char>, begin: int)
    requires
        0 <= begin <= t.len(),
        forall|j: int| begin <= j < t.len() ==> t[j] != ',',
    ensures
        split_commas(t.subrange(begin, t.len() as int)) == seq![t.subrange(begin, t.len() as int)],
{
    let u = t.subrange(begin, t.len() as int);
    lemma_first_pos_unique(u, ',', u.len() as int);
}

/// Start and end positions, in `chars`, of the comma separated pieces of
/// `chars[..end]`.
fn segment_bounds(chars: &Vec<char>, end: usize) -> (bounds: Vec<(usize, usize)>)
    requires
        end <= chars@.len(),
    ensures
        bounds@.len() == split_commas(chars@.take(end as int)).len(),
        forall|j: int|
            0 <= j < bounds@.len() ==> {
                &&& (#[trigger] bounds@[j]).0 <= bounds@[j].1 <= end
                &&& split_commas(chars@.take(end as int))[j] == chars@.subrange(
                    bounds@[j].0 as int,
                    bounds@[j].1 as int,
                )
            },
{
    let ghost t = chars@.take(end as int);
    let mut bounds: Vec<(usize, usize)> = Vec::new();
    let mut begin: usize = 0;
    let mut i: usize = 0;
    proof {
        assert(t.subrange(0, t.len() as int) =~= t);
    }
    while i < end
        invariant
            begin <= i <= end <= chars@.len(),
            t == chars@.take(end as int),
            forall|j: int| begin <= j < i ==> t[j] != ',',
            split_commas(t) == bounds@.map_values(
                |b: (usize, usize)| chars@.subrange(b.0 as int, b.1 as int),
            ) + split_commas(t.subrange(begin as int, end as int)),
            forall|j: int|
                0 <= j < bounds@.len() ==> (#[trigger] bounds@[j]).0 <= bounds@[j].1 <= begin,
        decreases end - i,
    {
        if chars[i] == ',' {
            proof {
                lemma_split_step(t, begin as int, i as int);
                assert(t.subrange(begin as int, i as int) =~= chars@.subrange(
                    begin as int,
                    i as int,
                ));
                let old_map = bounds@.map_values(
                    |b: (usize, usize)| chars@.subrange(b.0 as int, b.1 as int),
                );
                let new_map = bounds@.push((begin, i)).map_values(
                    |b: (usize, usize)| chars@.subrange(b.0 as int, b.1 as int),
                );
                assert(new_map =~= old_map.push(chars@.subrange(begin as int, i as int)));
            }
            bounds.push((begin, i));
            begin = i + 1;
        }
        i = i + 1;
    }
    proof {
        lemma_split_last(t, begin as int);
        assert(t.subrange(begin as int, end as int) =~= chars@.subrange(
            begin as int,
            end as int,
        ));
        let old_map = bounds@.map_values(
            |b: (usize, usize)| chars@.subrange(b.0 as int, b.1 as int),
        );
        let new_map = bounds@.push((begin, end)).map_values(
            |b: (usize, usize)| chars@.subrange(b.0 as int, b.1 as int),
        );
        assert(new_map =~= old_map.push(chars@.subrange(begin as int, end as int)));
    }
    bounds.push((begin, end));
    proof {
        let m = bounds@.map_values(|b: (usize, usize)| chars@.subrange(b.0 as int, b.1 as int));
        assert forall|j: int| 0 <= j < bounds@.len() implies split_commas(t)[j]
            == chars@.subrange(bounds@[j].0 as int, bounds@[j].1 as int) by {
            assert(m[j] == chars@.subrange(bounds@[j].0 as int, bounds@[j].1 as int));
        }
    }
    bounds
}

/// Splits a console line into its commands: the text before the first `#`
/// is cut at every comma, each piece loses its spaces and is parsed. Each
/// entry holds the piece (without spaces) and its command.
pub fn subdivide_commands(comma_seperated: &String) -> (substrings: Vec<(String, Command)>)
    requires
        commands_accepted(comma_seperated@),
    ensures
        substrings@.len() == command_segments(comma_seperated@).len(),
        forall|j: int|
            0 <= j < substrings@.len() ==> {
                &&& (#[trigger] substrings@[j]).0@ == without_spaces(
                    command_segments(comma_seperated@)[j],
                )
                &&& substrings@[j].1@ == parse_command(
                    without_spaces(command_segments(comma_seperated@)[j]),
                )
            },
{
    let chars = chars_of(comma_seperated.as_str());
    let end = find_char(&chars, '#');
    proof {
        lemma_first_pos(chars@, '#');
    }
    let bounds = segment_bounds(&chars, end);
    let ghost segments = command_segments(comma_seperated@);
    let mut substrings: Vec<(String, Command)> = Vec::new();
    let mut j: usize = 0;
    while j < bounds.len()
        invariant
            j <= bounds@.len(),
            chars@ == comma_seperated@,
            end == first_pos(chars@, '#'),
            end <= chars@.len(),
            segments == command_segments(comma_seperated@),
            commands_accepted(comma_seperated@),
            bounds@.len() == segments.len(),
            forall|i: int|
                0 <= i < bounds@.len() ==> {
                    &&& (#[trigger] bounds@[i]).0 <= bounds@[i].1 <= end
                    &&& segments[i] == chars@.subrange(bounds@[i].0 as int, bounds@[i].1 as int)
                },
            substrings@.len() == j,
            forall|i: int|
                0 <= i < j ==> {
                    &&& (#[trigger] substrings@[i]).0@ == without_spaces(segments[i])
                    &&& substrings@[i].1@ == parse_command(without_spaces(segments[i]))
                },
        decreases bounds.len() - j,
    {
        let (begin, stop) = bounds[j];
        let piece = string_from_chars(&chars, begin, stop);
        let command_string = filter_spaces(piece.as_str());
        assert(command_accepted(without_spaces(segments[j as int])));
        let command = Command::from(&command_string);
        substrings.push((command_string, command));
        j = j + 1;
    }
    substrings
}

/// Whether `subdivide_commands` reads the line `comma_seperated`.
pub fn subdivide_commands_accepts(comma_seperated: &String) -> (b: bool)
    ensures
        b == commands_accepted(comma_seperated@),
{
    let chars = chars_of(comma_seperated.as_str());
    let end = find_char(&chars, '#');
    proof {
        lemma_first_pos(chars@, '#');
    }
    let mut i: usize = 0;
    while i < end
        invariant
            i <= end <= chars@.len(),
            chars@ == comma_seperated@,
            end == first_pos(chars@, '#'),
            forall|k: int| 0 <= k < i ==> is_ascii_char(#[trigger] chars@[k]),
        decreases end - i,
    {
        if (chars[i] as u32) >= 128 {
            return false;
        }
        i = i + 1;
    }
    let bounds = segment_bounds(&chars, end);
    let ghost segments = command_segments(comma_seperated@);
    let mut j: usize = 0;
    while j < bounds.len()
        invariant
            j <= bounds@.len(),
            chars@ == comma_seperated@,
            end == first_pos(chars@, '#'),
            end <= chars@.len(),
            segments == command_segments(comma_seperated@),
            bounds@.len() == segments.len(),
            forall|i: int|
                0 <= i < bounds@.len() ==> {
                    &&& (#[trigger] bounds@[i]).0 <= bounds@[i].1 <= end
                    &&& segments[i] == chars@.subrange(bounds@[i].0 as int, bounds@[i].1 as int)
                },
            forall|i: int| 0 <= i < j ==> command_accepted(without_spaces(#[trigger] segments[i])),
        decreases bounds.len() - j,
    {
        let (begin, stop) = bounds[j];
        let piece = string_from_chars(&chars, begin, stop);
        let command_string = filter_spaces(piece.as_str());
        if !Command::accepts(&command_string) {
            return false;
        }
        j = j + 1;
    }
    true
}

/// The pieces `p` written one after the other with a comma between each two.
pub open spec fn join_commas(p: Seq<Seq<char>>) -> Seq<char>
    decreases p.len(),
{
    if p.len() == 0 {
        Seq::empty()
    } else if p.len() == 1 {
        p[0]
    } else {
        p[0] + seq![','] + join_commas(p.drop_first())
    }
}

/// Cutting at commas yields at least one piece, none of which holds a comma,
/// and writing the pieces back with commas between them gives the text again.
pub proof fn lemma_split_then_join(t: Seq<char>)
    ensures
        split_commas(t).len() >= 1,
        forall|i: int, j: int|
            0 <= i < split_commas(t).len() && 0 <= j < split_commas(t)[i].len()
                ==> split_commas(t)[i][j] != ',',
        join_commas(split_commas(t)) == t,
    decreases t.len(),
{
    lemma_first_pos(t, ',');
    let k = first_pos(t, ',') as int;
    if k < t.len() {
        let rest = t.skip(k + 1);
        lemma_split_then_join(rest);
        let p = split_commas(t);
        assert(p == seq![t.take(k)] + split_commas(rest));
        assert(p.drop_first() =~= split_commas(rest));
        assert(t =~= t.take(k) + seq![','] + rest);
        assert forall|i: int, j: int| 0 <= i < p.len() && 0 <= j < p[i].len() implies p[i][j]
            != ',' by {
            if i > 0 {
                assert(p[i] == split_commas(rest)[i - 1]);
            }
        }
    }
}

/// Writing comma-free pieces with commas between them and cutting the result
/// at its commas gives the pieces back.
pub proof fn lemma_join_then_split(p: Seq<Seq<char>>)
    requires
        p.len() >= 1,
        forall|i: int, j: int| 0 <= i < p.len() && 0 <= j < p[i].len() ==> p[i][j] != ',',
    ensures
        split_commas(join_commas(p)) == p,
    decreases p.len(),
{
    if p.len() == 1 {
        let t = join_commas(p);
        assert(t == p[0]);
        assert forall|j: int| 0 <= j < t.len() implies t[j] != ',' by {
            assert(t[j] == p[0][j]);
        }
        lemma_first_pos_unique(t, ',', t.len() as int);
        assert(p =~= seq![t]);
    } else {
        let rest = p.drop_first();
        assert forall|i: int, j: int| 0 <= i < rest.len() && 0 <= j < rest[i].len() implies rest[i][j]
            != ',' by {
            assert(rest[i] == p[i + 1]);
        }
        lemma_join_then_split(rest);
        let t = join_commas(p);
        let a = p[0];
        assert(t == a + seq![','] + join_commas(rest));
        assert forall|j: int| 0 <= j < a.len() implies t[j] != ',' by {
            assert(t[j] == a[j]);
        }
        lemma_first_pos_unique(t, ',', a.len() as int);
        assert(t.take(a.len() as int) =~= a);
        assert(t.skip(a.len() as int + 1) =~= join_commas(rest));
        assert(p =~= seq![a] + rest);
    }
}

/// Text after the first `#` does not change the commands of a line.
pub proof fn lemma_comment_ignored(s: Seq<char>)
    ensures
        command_segments(s) == command_segments(s.take(first_pos(s, '#') as int)),
{
    lemma_first_pos(s, '#');
    let h = first_pos(s, '#') as int;
    let t = s.take(h);
    assert forall|j: int| 0 <= j < h implies t[j] != '#' by {
        assert(t[j] == s[j]);
    }
    lemma_first_pos_unique(t, '#', h);
    assert(t.take(h) =~= t);
}

/// A name that does not end in an operator, followed by `=` and a value,
/// is read as assigning that value to that name.
pub proof fn lemma_assign_read_back(name: Seq<char>, value: Seq<char>)
    requires
        name.len() > 0,
        forall|j: int| 0 <= j < name.len() ==> name[j] != '=' && is_ascii_char(#[trigger] name[j]),
        action_of(name.last()) is None,
    ensures
        command_accepted(name + seq!['='] + value),
        parse_command(name + seq!['='] + value) == (CommandView::Assign {
            variable_name: name,
            value,
        }),
{
    let s = name + seq!['='] + value;
    let k = name.len() as int;
    assert forall|j: int| 0 <= j < k implies s[j] != '=' && is_ascii_char(s[j]) by {
        assert(s[j] == name[j]);
    }
    lemma_first_pos_unique(s, '=', k);
    assert(s[k - 1] == name.last());
    assert(s.take(k) =~= name);
    assert(s.skip(k + 1) =~= value);
}

/// A name, an operator, `=` and a value are read as updating that name
/// with that operator and value.
pub proof fn lemma_update_read_back(name: Seq<char>, op: char, value: Seq<char>)
    requires
        forall|j: int| 0 <= j < name.len() ==> name[j] != '=' && is_ascii_char(#[trigger] name[j]),
        action_of(op) is Some,
    ensures
        command_accepted(name + seq![op, '='] + value),
        parse_command(name + seq![op, '='] + value) == (CommandView::Update {
            variable_name: name,
            value,
            action: action_of(op).unwrap(),
        }),
{
    let s = name + seq![op, '='] + value;
    let k = name.len() as int + 1;
    assert forall|j: int| 0 <= j < k implies s[j] != '=' && is_ascii_char(s[j]) by {
        if j < name.len() {
            assert(s[j] == name[j]);
        } else {
            assert(s[j] == op);
        }
    }
    assert(s[k] == '=');
    lemma_first_pos_unique(s, '=', k);
    assert(s.take(k - 1) =~= name);
    assert(s.skip(k + 1) =~= value);
}

/// The number of commas in `t`.
pub open spec fn commas_in(t: Seq<char>) -> nat {
    t.filter(|c: char| c == ',').len()
}

/// Commas counted in two texts written one after the other add up.
proof fn lemma_commas_in_add(a: Seq<char>, b: Seq<char>)
    ensures
        commas_in(a + b) == commas_in(a) + commas_in(b),
{
    Seq::filter_distributes_over_add(a, b, |c: char| c == ',');
}

/// A text without commas holds no comma to count.
proof fn lemma_commas_in_comma_free(a: Seq<char>)
    requires
        forall|j: int| 0 <= j < a.len() ==> a[j] != ',',
    ensures
        commas_in(a) == 0,
    decreases a.len(),
{
    reveal(Seq::filter);
    if a.len() > 0 {
        lemma_commas_in_comma_free(a.drop_last());
    }
}

/// Comma-free pieces written with commas between them hold one comma
/// fewer than there are pieces.
proof fn lemma_commas_in_join(p: Seq<Seq<char>>)
    requires
        p.len() >= 1,
        forall|i: int, j: int| 0 <= i < p.len() && 0 <= j < p[i].len() ==> p[i][j] != ',',
    ensures
        commas_in(join_commas(p)) + 1 == p.len(),
    decreases p.len(),
{
    lemma_commas_in_comma_free(p[0]);
    if p.len() > 1 {
        let rest = p.drop_first();
        assert forall|i: int, j: int| 0 <= i < rest.len() && 0 <= j < rest[i].len() implies rest[i][j]
            != ',' by {
            assert(rest[i] == p[i + 1]);
        }
        lemma_commas_in_join(rest);
        lemma_commas_in_add(p[0], seq![',']);
        lemma_commas_in_add(p[0] + seq![','], join_commas(rest));
        reveal(Seq::filter);
        assert(seq![','].drop_last() =~= Seq::<char>::empty());
        assert(commas_in(seq![',']) == 1);
    }
}

/// The commands of a line are its text up to the first `#` (`h` is that
/// position, or the length of a line without `#`), cut at every comma: there
/// is at least one piece, no piece holds a comma, writing the pieces back with
/// a comma between each two gives exactly that text, and there is one piece
/// more than the text has commas.
pub proof fn lemma_commands_cut_line(s: Seq<char>, h: int)
    requires
        0 <= h <= s.len(),
        forall|j: int| 0 <= j < h ==> s[j] != '#',
        h < s.len() ==> s[h] == '#',
    ensures
        command_segments(s).len() >= 1,
        forall|i: int, j: int|
            0 <= i < command_segments(s).len() && 0 <= j < command_segments(s)[i].len()
                ==> command_segments(s)[i][j] != ',',
        join_commas(command_segments(s)) == s.take(h),
        command_segments(s).len() == commas_in(s.take(h)) + 1,
{
    lemma_first_pos_unique(s, '#', h);
    lemma_split_then_join(s.take(h));
    lemma_commas_in_join(command_segments(s));
}

/// Any name that is not empty, is ASCII, holds no `=` and does not end in
/// one of `* / + -`, followed by `=` and any value, is read as assigning that
/// value to that name.
pub proof fn lemma_assign_any_name(name: Seq<char>, value: Seq<char>)
    requires
        name.len() > 0,
        forall|j: int| 0 <= j < name.len() ==> name[j] != '=' && is_ascii_char(#[trigger] name[j]),
        name.last() != '*' && name.last() != '/' && name.last() != '+' && name.last() != '-',
    ensures
        command_accepted(name + seq!['='] + value),
        parse_command(name + seq!['='] + value) == (CommandView::Assign {
            variable_name: name,
            value,
        }),
{
    lemma_assign_read_back(name, value);
}

/// A name (ASCII, without `=`), one of the operators `* / + -`, `=` and a
/// value are read as updating that name with that value by multiplying,
/// dividing, adding or subtracting respectively.
pub proof fn lemma_update_each_operator(name: Seq<char>, value: Seq<char>)
    requires
        forall|j: int| 0 <= j < name.len() ==> name[j] != '=' && is_ascii_char(#[trigger] name[j]),
    ensures
        parse_command(name + seq!['*', '='] + value) == (CommandView::Update {
            variable_name: name,
            value,
            action: Action::Multiply,
        }),
        parse_command(name + seq!['/', '='] + value) == (CommandView::Update {
            variable_name: name,
            value,
            action: Action::Divide,
        }),
        parse_command(name + seq!['+', '='] + value) == (CommandView::Update {
            variable_name: name,
            value,
            action: Action::Add,
        }),
        parse_command(name + seq!['-', '='] + value) == (CommandView::Update {
            variable_name: name,
            value,
            action: Action::Subtract,
        }),
{
    lemma_update_read_back(name, '*', value);
    lemma_update_read_back(name, '/', value);
    lemma_update_read_back(name, '+', value);
    lemma_update_read_back(name, '-', value);
}

/// Only the four operator characters select an action.
pub proof fn lemma_only_operators_act(c: char)
    ensures
        (action_of(c) is Some) <==> (c == '*' || c == '/' || c == '+' || c == '-'),
{
}

} // verus!
