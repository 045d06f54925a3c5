//! The command line of `usbipd`.

use vstd::prelude::*;
use vstd::string::StringExecFns;

use crate::device::string_views;
use crate::text::{chars_of, digits_weight, hex, lower_digits, str_eq, upper_digits};

verus! {

/// Where the server listens unless it is told otherwise: on the host itself
/// only, so that nothing is exposed to the network unasked.
pub const DEFAULT_LISTEN: &'static str = "127.0.0.1:3240";

/// What the command line asks for.
#[derive(Debug)]
pub enum Invocation {
    Help,
    Version,
    /// Share devices, as the arguments after the first say.
    Bind,
    Unknown(String),
}

/// What an [`Invocation`] says.
#[verifier::ext_equal]
pub enum InvocationView {
    Help,
    Version,
    Bind,
    Unknown(Seq<char>),
}

impl View for Invocation {
    type V = InvocationView;

    open spec fn view(&self) -> InvocationView {
        match self {
            Invocation::Help => InvocationView::Help,
            Invocation::Version => InvocationView::Version,
            Invocation::Bind => InvocationView::Bind,
            Invocation::Unknown(command) => InvocationView::Unknown(command@),
        }
    }
}

/// What the arguments ask for.
pub open spec fn invocation(args: Seq<Seq<char>>) -> InvocationView {
    if args.len() == 0 || args[0] == "help"@ || args[0] == "--help"@ || args[0] == "-h"@ {
        InvocationView::Help
    } else if args[0] == "--version"@ || args[0] == "-V"@ || args[0] == "version"@ {
        InvocationView::Version
    } else if args[0] == "bind"@ {
        InvocationView::Bind
    } else {
        InvocationView::Unknown(args[0])
    }
}

impl Invocation {
    pub fn parse(args: &[String]) -> (r: Self)
        ensures
            r@ == invocation(string_views(args@)),
    {
        if args.len() == 0 {
            return Invocation::Help;
        }
        let command = args[0].as_str();
        if str_eq(command, "help") || str_eq(command, "--help") || str_eq(command, "-h") {
            Invocation::Help
        } else if str_eq(command, "--version") || str_eq(command, "-V") || str_eq(
            command,
            "version",
        ) {
            Invocation::Version
        } else if str_eq(command, "bind") {
            Invocation::Bind
        } else {
            Invocation::Unknown(command.to_owned())
        }
    }
}

/// Every argument that follows one equal to `name`, in order.
pub open spec fn values_of(args: Seq<Seq<char>>, name: Seq<char>) -> Seq<Seq<char>>
    decreases args.len(),
{
    if args.len() < 2 {
        seq![]
    } else {
        let before = values_of(args.drop_last(), name);
        if args[args.len() - 2] == name {
            before.push(args.last())
        } else {
            before
        }
    }
}

/// The values of a repeatable option.
pub fn option_values(args: &[String], name: &str) -> (r: Vec<String>)
    ensures
        string_views(r@) == values_of(string_views(args@), name@),
{
    let ghost all = string_views(args@);
    let mut r: Vec<String> = Vec::new();
    let mut i: usize = 1;
    while i < args.len()
        invariant
            1 <= i,
            i <= args@.len() || args@.len() == 0,
            all == string_views(args@),
            string_views(r@) == values_of(all.take(if i <= args@.len() {
                i as int
            } else {
                0
            }), name@),
        decreases args@.len() - i,
    {
        let ghost before = r@;
        proof {
            assert(all.take(i + 1).drop_last() =~= all.take(i as int));
            assert(all.take(i + 1)[i - 1] == all[i - 1]);
            assert(all.take(i + 1).last() == all[i as int]);
        }
        if str_eq(args[i - 1].as_str(), name) {
            r.push(args[i].clone());
            assert(string_views(r@) =~= string_views(before).push(all[i as int]));
        }
        i += 1;
    }
    assert(all.take(all.len() as int) =~= all);
    r
}

/// The first value of an option.
pub fn option_value(args: &[String], name: &str) -> (r: Option<String>)
    ensures
        match r {
            Some(value) => values_of(string_views(args@), name@).len() > 0 && value@ == values_of(
                string_views(args@),
                name@,
            )[0],
            None => values_of(string_views(args@), name@).len() == 0,
        },
{
    let values = option_values(args, name);
    let ghost views = string_views(values@);
    if values.len() == 0 {
        None
    } else {
        assert(views[0] == values@[0]@);
        Some(values[0].clone())
    }
}

/// Whether an argument is there.
pub fn has_flag(args: &[String], name: &str) -> (r: bool)
    ensures
        r == string_views(args@).contains(name@),
{
    let ghost all = string_views(args@);
    let mut i: usize = 0;
    while i < args.len()
        invariant
            i <= args@.len(),
            all == string_views(args@),
            forall|j: int| 0 <= j < i ==> all[j] != name@,
        decreases args@.len() - i,
    {
        if str_eq(args[i].as_str(), name) {
            assert(all[i as int] == name@);
            return true;
        }
        i += 1;
    }
    false
}

/// Whether Unicode counts a character as white space.
pub open spec fn white(c: char) -> bool {
    ||| '\u{9}' <= c <= '\u{d}'
    ||| c == ' '
    ||| c == '\u{85}'
    ||| c == '\u{a0}'
    ||| c == '\u{1680}'
    ||| '\u{2000}' <= c <= '\u{200a}'
    ||| c == '\u{2028}'
    ||| c == '\u{2029}'
    ||| c == '\u{202f}'
    ||| c == '\u{205f}'
    ||| c == '\u{3000}'
}

/// Whether Unicode counts a character as white space.
pub fn is_white(c: char) -> (r: bool)
    ensures
        r == white(c),
{
    ('\u{9}' <= c && c <= '\u{d}') || c == ' ' || c == '\u{85}' || c == '\u{a0}' || c == '\u{1680}'
        || ('\u{2000}' <= c && c <= '\u{200a}') || c == '\u{2028}' || c == '\u{2029}' || c
        == '\u{202f}' || c == '\u{205f}' || c == '\u{3000}'
}

/// `s` without white space at its beginning.
pub open spec fn trim_start(s: Seq<char>) -> Seq<char>
    decreases s.len(),
{
    if s.len() > 0 && white(s[0]) {
        trim_start(s.skip(1))
    } else {
        s
    }
}

/// `s` without white space at its end.
pub open spec fn trim_end(s: Seq<char>) -> Seq<char>
    decreases s.len(),
{
    if s.len() > 0 && white(s.last()) {
        trim_end(s.drop_last())
    } else {
        s
    }
}

/// `s` without white space around it.
pub open spec fn trim(s: Seq<char>) -> Seq<char> {
    trim_end(trim_start(s))
}

/// `s` without the two given characters at its beginning, however often they
/// stand there.
pub open spec fn strip(s: Seq<char>, first: char, second: char) -> Seq<char>
    decreases s.len(),
{
    if s.len() >= 2 && s[0] == first && s[1] == second {
        strip(s.skip(2), first, second)
    } else {
        s
    }
}

/// `s` without the marks of a hexadecimal number at its beginning.
pub open spec fn strip_marks(s: Seq<char>) -> Seq<char> {
    strip(strip(s, '0', 'x'), '0', 'X')
}

/// The value of a hexadecimal digit.
pub open spec fn digit(c: char) -> Option<int> {
    if '0' <= c <= '9' {
        Some(c as int - '0' as int)
    } else if 'a' <= c <= 'f' {
        Some(c as int - 'a' as int + 10)
    } else if 'A' <= c <= 'F' {
        Some(c as int - 'A' as int + 10)
    } else {
        None
    }
}

/// The number that hexadecimal digits stand for.
pub open spec fn digits_value(s: Seq<char>) -> Option<int>
    decreases s.len(),
{
    if s.len() == 0 {
        Some(0)
    } else {
        match (digits_value(s.drop_last()), digit(s.last())) {
            (Some(v), Some(d)) => Some(16 * v + d),
            _ => None,
        }
    }
}

/// The 16-bit number that `s` is in hexadecimal: one digit or more, after a
/// plus sign perhaps.
pub open spec fn hex_number(s: Seq<char>) -> Option<u16> {
    let digits = if s.len() > 0 && s[0] == '+' {
        s.skip(1)
    } else {
        s
    };
    match digits_value(digits) {
        Some(v) => if digits.len() > 0 && v <= 0xffff {
            Some(v as u16)
        } else {
            None
        },
        None => None,
    }
}

/// What `--vid` and `--pid` mean.
pub open spec fn hex_id(s: Seq<char>) -> Option<u16> {
    hex_number(strip_marks(s))
}

/// Where the first colon from `from` on stands, or the end.
pub open spec fn colon(s: Seq<char>, from: int) -> int
    decreases s.len() - from,
{
    if from < 0 || from >= s.len() || s[from] == ':' {
        from
    } else {
        colon(s, from + 1)
    }
}

/// What `--device` means: two numbers of four characters each, with a colon
/// between them.
pub open spec fn vid_pid(s: Seq<char>) -> Option<(u16, u16)> {
    let value = strip_marks(trim(s));
    let at = colon(value, 0);
    if at == 4 && value.len() == 9 {
        match (hex_number(value.take(4)), hex_number(value.skip(5))) {
            (Some(vid), Some(pid)) => Some((vid, pid)),
            _ => None,
        }
    } else {
        None
    }
}

proof fn lemma_digits_value_prefix(s: Seq<char>, n: int)
    requires
        0 <= n <= s.len(),
    ensures
        digits_value(s.take(n)) is None ==> digits_value(s) is None,
        digits_value(s) is Some ==> digits_value(s.take(n)) is Some && 0 <= digits_value(
            s.take(n),
        )->0 <= digits_value(s)->0,
    decreases s.len() - n,
{
    assert(s.take(s.len() as int) =~= s);
    if n < s.len() {
        lemma_digits_value_prefix(s, n + 1);
        assert(s.take(n + 1).drop_last() =~= s.take(n));
        lemma_digits_value_nonnegative(s.take(n));
    } else {
        lemma_digits_value_nonnegative(s);
    }
}

proof fn lemma_digits_value_nonnegative(s: Seq<char>)
    ensures
        digits_value(s) is Some ==> digits_value(s)->0 >= 0,
    decreases s.len(),
{
    if s.len() > 0 {
        lemma_digits_value_nonnegative(s.drop_last());
    }
}

fn digit_of(c: char) -> (r: Option<u32>)
    ensures
        match r {
            Some(d) => digit(c) == Some(d as int) && d < 16,
            None => digit(c) is None,
        },
{
    if '0' <= c && c <= '9' {
        Some(c as u32 - '0' as u32)
    } else if 'a' <= c && c <= 'f' {
        Some(c as u32 - 'a' as u32 + 10)
    } else if 'A' <= c && c <= 'F' {
        Some(c as u32 - 'A' as u32 + 10)
    } else {
        None
    }
}

fn parse_digits(s: &Vec<char>, from: usize, to: usize) -> (r: Option<u16>)
    requires
        from <= to <= s@.len(),
    ensures
        r == (match digits_value(s@.subrange(from as int, to as int)) {
            Some(v) => if v <= 0xffff {
                Some(v as u16)
            } else {
                None
            },
            None => None,
        }),
{
    let ghost digits = s@.subrange(from as int, to as int);
    let mut value: u32 = 0;
    let mut i: usize = from;
    while i < to
        invariant
            from <= i <= to <= s@.len(),
            digits == s@.subrange(from as int, to as int),
            digits_value(digits.take(i - from)) == Some(value as int),
            value <= 0xffff,
        decreases to - i,
    {
        let ghost longer = digits.take(i + 1 - from);
        assert(longer.drop_last() =~= digits.take(i - from));
        assert(longer.last() == s@[i as int]);
        proof {
            lemma_digits_value_prefix(digits, i + 1 - from);
        }
        match digit_of(s[i]) {
            None => return None,
            Some(d) => {
                value = 16 * value + d;
                if value > 0xffff {
                    return None;
                }
            },
        }
        i += 1;
    }
    assert(digits.take(to - from) =~= digits);
    Some(value as u16)
}

fn parse_number(s: &Vec<char>, from: usize, to: usize) -> (r: Option<u16>)
    requires
        from <= to <= s@.len(),
    ensures
        r == hex_number(s@.subrange(from as int, to as int)),
{
    let ghost text = s@.subrange(from as int, to as int);
    if from == to {
        return None;
    }
    if s[from] != '+' {
        return parse_digits(s, from, to);
    }
    assert(text.skip(1) =~= s@.subrange(from + 1, to as int));
    if from + 1 == to {
        return None;
    }
    parse_digits(s, from + 1, to)
}

fn strip_from(s: &Vec<char>, from: usize, to: usize, first: char, second: char) -> (r: usize)
    requires
        from <= to <= s@.len(),
    ensures
        from <= r <= to,
        s@.subrange(r as int, to as int) == strip(
            s@.subrange(from as int, to as int),
            first,
            second,
        ),
{
    let mut at: usize = from;
    while at < to && to - at >= 2 && s[at] == first && s[at + 1] == second
        invariant
            from <= at <= to <= s@.len(),
            strip(s@.subrange(at as int, to as int), first, second) == strip(
                s@.subrange(from as int, to as int),
                first,
                second,
            ),
        decreases to - at,
    {
        assert(s@.subrange(at as int, to as int).skip(2) =~= s@.subrange(at + 2, to as int));
        at += 2;
    }
    at
}

fn trim_bounds(s: &Vec<char>) -> (r: (usize, usize))
    ensures
        r.0 <= r.1 <= s@.len(),
        s@.subrange(r.0 as int, r.1 as int) == trim(s@),
{
    let mut from: usize = 0;
    assert(s@.subrange(0, s@.len() as int) =~= s@);
    while from < s.len() && is_white(s[from])
        invariant
            from <= s@.len(),
            trim_start(s@.subrange(from as int, s@.len() as int)) == trim_start(s@),
        decreases s@.len() - from,
    {
        assert(s@.subrange(from as int, s@.len() as int).skip(1) =~= s@.subrange(
            from + 1,
            s@.len() as int,
        ));
        from += 1;
    }
    let mut to: usize = s.len();
    assert(trim_start(s@) == s@.subrange(from as int, s@.len() as int));
    while to > from && is_white(s[to - 1])
        invariant
            from <= to <= s@.len(),
            trim_end(s@.subrange(from as int, to as int)) == trim(s@),
        decreases to,
    {
        assert(s@.subrange(from as int, to as int).drop_last() =~= s@.subrange(
            from as int,
            to - 1,
        ));
        to -= 1;
    }
    (from, to)
}

/// The number given with `--vid` or `--pid`, in hexadecimal.
pub fn parse_hex(value: &str) -> (r: Option<u16>)
    ensures
        r == hex_id(value@),
{
    let s = chars_of(value);
    assert(s@.subrange(0, s@.len() as int) =~= value@);
    let end: usize = s.len();
    let at: usize = strip_from(&s, 0, end, '0', 'x');
    let at: usize = strip_from(&s, at, end, '0', 'X');
    parse_number(&s, at, end)
}

/// The vendor and product id given with `--device`, such as `2207:0006`.
pub fn parse_vid_pid(value: &str) -> (r: Option<(u16, u16)>)
    ensures
        r == vid_pid(value@),
{
    let s = chars_of(value);
    let (from, to) = trim_bounds(&s);
    let from: usize = strip_from(&s, from, to, '0', 'x');
    let from: usize = strip_from(&s, from, to, '0', 'X');
    let ghost text = s@.subrange(from as int, to as int);
    assert(text == strip_marks(trim(value@)));
    let mut at: usize = from;
    while at < to && s[at] != ':'
        invariant
            from <= at <= to <= s@.len(),
            text == s@.subrange(from as int, to as int),
            colon(text, 0) == colon(text, at - from),
        decreases to - at,
    {
        at += 1;
    }
    if at - from != 4 || to - from != 9 {
        return None;
    }
    assert(text.take(4) =~= s@.subrange(from as int, from + 4));
    assert(text.skip(5) =~= s@.subrange(from + 5, to as int));
    match (parse_number(&s, from, from + 4), parse_number(&s, from + 5, to)) {
        (Some(vid), Some(pid)) => Some((vid, pid)),
        _ => None,
    }
}

/// Which devices to share, and how, as the arguments of `bind` say.
#[derive(Debug)]
pub struct BindOptions {
    pub serials: Vec<String>,
    pub vids: Vec<u16>,
    pub pids: Vec<u16>,
    /// Vendor and product ids that belong together.
    pub vid_pids: Vec<(u16, u16)>,
    /// The address to listen on.
    pub listen: String,
    /// The addresses of the peers that may connect.
    pub allow_clients: Vec<String>,
    pub allow_any_client: bool,
    pub stop_adb: bool,
}

/// What a [`BindOptions`] holds.
#[verifier::ext_equal]
pub struct BindView {
    pub serials: Seq<Seq<char>>,
    pub vids: Seq<u16>,
    pub pids: Seq<u16>,
    pub vid_pids: Seq<(u16, u16)>,
    pub listen: Seq<char>,
    pub allow_clients: Seq<Seq<char>>,
    pub allow_any_client: bool,
    pub stop_adb: bool,
}

impl View for BindOptions {
    type V = BindView;

    open spec fn view(&self) -> BindView {
        BindView {
            serials: string_views(self.serials@),
            vids: self.vids@,
            pids: self.pids@,
            vid_pids: self.vid_pids@,
            listen: self.listen@,
            allow_clients: string_views(self.allow_clients@),
            allow_any_client: self.allow_any_client,
            stop_adb: self.stop_adb,
        }
    }
}

/// Why the arguments of `bind` make no sense.
#[derive(Debug)]
pub enum BindError {
    InvalidVid(String),
    InvalidPid(String),
    InvalidDevice(String),
    /// Nothing says which devices to share.
    NothingSelected,
}

/// What a [`BindError`] says.
#[verifier::ext_equal]
pub enum BindErrorView {
    InvalidVid(Seq<char>),
    InvalidPid(Seq<char>),
    InvalidDevice(Seq<char>),
    NothingSelected,
}

impl View for BindError {
    type V = BindErrorView;

    open spec fn view(&self) -> BindErrorView {
        match self {
            BindError::InvalidVid(v) => BindErrorView::InvalidVid(v@),
            BindError::InvalidPid(v) => BindErrorView::InvalidPid(v@),
            BindError::InvalidDevice(v) => BindErrorView::InvalidDevice(v@),
            BindError::NothingSelected => BindErrorView::NothingSelected,
        }
    }
}

impl BindErrorView {
    /// The message that describes this error.
    pub open spec fn text(self) -> Seq<char> {
        match self {
            BindErrorView::InvalidVid(v) => "invalid --vid: "@ + v,
            BindErrorView::InvalidPid(v) => "invalid --pid: "@ + v,
            BindErrorView::InvalidDevice(v) =>
            "invalid --device (expected VID:PID, e.g. 2207:0006): "@ + v,
            BindErrorView::NothingSelected =>
            "at least one of --serial/--vid/--pid/--device is required"@,
        }
    }
}

impl BindError {
    /// The message that describes this error.
    pub fn message(&self) -> (message: String)
        ensures
            message@ == self@.text(),
    {
        let mut message = String::new();
        match self {
            BindError::InvalidVid(v) => {
                message.append("invalid --vid: ");
                message.append(v.as_str());
            },
            BindError::InvalidPid(v) => {
                message.append("invalid --pid: ");
                message.append(v.as_str());
            },
            BindError::InvalidDevice(v) => {
                message.append("invalid --device (expected VID:PID, e.g. 2207:0006): ");
                message.append(v.as_str());
            },
            BindError::NothingSelected => {
                message.append("at least one of --serial/--vid/--pid/--device is required");
            },
        }
        assert(message@ =~= self@.text());
        message
    }
}

/// The strings that hold more than white space.
pub open spec fn non_blank(values: Seq<Seq<char>>) -> Seq<Seq<char>>
    decreases values.len(),
{
    if values.len() == 0 {
        seq![]
    } else if trim(values.last()).len() == 0 {
        non_blank(values.drop_last())
    } else {
        non_blank(values.drop_last()).push(values.last())
    }
}

/// The numbers that strings stand for, or the first string that stands for
/// none.
pub open spec fn hex_ids(values: Seq<Seq<char>>) -> Result<Seq<u16>, Seq<char>>
    decreases values.len(),
{
    if values.len() == 0 {
        Ok(seq![])
    } else {
        match (hex_ids(values.drop_last()), hex_id(values.last())) {
            (Err(bad), _) => Err(bad),
            (Ok(ids), Some(id)) => Ok(ids.push(id)),
            (Ok(_), None) => Err(values.last()),
        }
    }
}

/// The pairs that strings stand for, or the first string that stands for none.
pub open spec fn vid_pids(values: Seq<Seq<char>>) -> Result<Seq<(u16, u16)>, Seq<char>>
    decreases values.len(),
{
    if values.len() == 0 {
        Ok(seq![])
    } else {
        match (vid_pids(values.drop_last()), vid_pid(values.last())) {
            (Err(bad), _) => Err(bad),
            (Ok(ids), Some(id)) => Ok(ids.push(id)),
            (Ok(_), None) => Err(values.last()),
        }
    }
}

/// What the arguments of `bind` say.
pub open spec fn bind_options(args: Seq<Seq<char>>) -> Result<BindView, BindErrorView> {
    let serials = non_blank(values_of(args, "--serial"@));
    let listen = values_of(args, "--listen"@);
    match (
        hex_ids(values_of(args, "--vid"@)),
        hex_ids(values_of(args, "--pid"@)),
        vid_pids(values_of(args, "--device"@)),
    ) {
        (Err(bad), _, _) => Err(BindErrorView::InvalidVid(bad)),
        (Ok(_), Err(bad), _) => Err(BindErrorView::InvalidPid(bad)),
        (Ok(_), Ok(_), Err(bad)) => Err(BindErrorView::InvalidDevice(bad)),
        (Ok(vids), Ok(pids), Ok(pairs)) => if serials.len() == 0 && vids.len() == 0 && pids.len()
            == 0 && pairs.len() == 0 {
            Err(BindErrorView::NothingSelected)
        } else {
            Ok(
                BindView {
                    serials,
                    vids,
                    pids,
                    vid_pids: pairs,
                    listen: if listen.len() > 0 {
                        listen[0]
                    } else {
                        DEFAULT_LISTEN@
                    },
                    allow_clients: values_of(args, "--allow-client"@),
                    allow_any_client: args.contains("--allow-any-client"@),
                    stop_adb: args.contains("--stop-adb"@),
                },
            )
        },
    }
}

fn keep_non_blank(values: Vec<String>) -> (r: Vec<String>)
    ensures
        string_views(r@) == non_blank(string_views(values@)),
{
    let ghost all = string_views(values@);
    let mut r: Vec<String> = Vec::new();
    let mut i: usize = 0;
    while i < values.len()
        invariant
            i <= values@.len(),
            all == string_views(values@),
            string_views(r@) == non_blank(all.take(i as int)),
        decreases values@.len() - i,
    {
        let ghost before = r@;
        assert(all.take(i + 1).drop_last() =~= all.take(i as int));
        assert(all.take(i + 1).last() == values@[i as int]@);
        let (from, to) = trim_bounds(&chars_of(values[i].as_str()));
        if from < to {
            r.push(values[i].clone());
            assert(string_views(r@) =~= string_views(before).push(values@[i as int]@));
        }
        i += 1;
    }
    assert(all.take(all.len() as int) =~= all);
    r
}

proof fn lemma_hex_ids_prefix(values: Seq<Seq<char>>, n: int)
    requires
        0 <= n <= values.len(),
        hex_ids(values.take(n)) is Err,
    ensures
        hex_ids(values) == hex_ids(values.take(n)),
    decreases values.len() - n,
{
    if n < values.len() {
        assert(values.take(n + 1).drop_last() =~= values.take(n));
        lemma_hex_ids_prefix(values, n + 1);
    } else {
        assert(values.take(n) =~= values);
    }
}

proof fn lemma_vid_pids_prefix(values: Seq<Seq<char>>, n: int)
    requires
        0 <= n <= values.len(),
        vid_pids(values.take(n)) is Err,
    ensures
        vid_pids(values) == vid_pids(values.take(n)),
    decreases values.len() - n,
{
    if n < values.len() {
        assert(values.take(n + 1).drop_last() =~= values.take(n));
        lemma_vid_pids_prefix(values, n + 1);
    } else {
        assert(values.take(n) =~= values);
    }
}

fn parse_hex_ids(values: Vec<String>) -> (r: Result<Vec<u16>, String>)
    ensures
        match hex_ids(string_views(values@)) {
            Ok(ids) => r is Ok && r->Ok_0@ == ids,
            Err(bad) => r is Err && r->Err_0@ == bad,
        },
{
    let ghost all = string_views(values@);
    let mut r: Vec<u16> = Vec::new();
    let mut i: usize = 0;
    while i < values.len()
        invariant
            i <= values@.len(),
            all == string_views(values@),
            hex_ids(all.take(i as int)) == Ok::<Seq<u16>, Seq<char>>(r@),
        decreases values@.len() - i,
    {
        assert(all.take(i + 1).drop_last() =~= all.take(i as int));
        assert(all.take(i + 1).last() == values@[i as int]@);
        match parse_hex(values[i].as_str()) {
            Some(id) => r.push(id),
            None => {
                proof {
                    lemma_hex_ids_prefix(all, i + 1);
                }
                return Err(values[i].clone());
            },
        }
        i += 1;
    }
    assert(all.take(all.len() as int) =~= all);
    Ok(r)
}

fn parse_vid_pids(values: Vec<String>) -> (r: Result<Vec<(u16, u16)>, String>)
    ensures
        match vid_pids(string_views(values@)) {
            Ok(ids) => r is Ok && r->Ok_0@ == ids,
            Err(bad) => r is Err && r->Err_0@ == bad,
        },
{
    let ghost all = string_views(values@);
    let mut r: Vec<(u16, u16)> = Vec::new();
    let mut i: usize = 0;
    while i < values.len()
        invariant
            i <= values@.len(),
            all == string_views(values@),
            vid_pids(all.take(i as int)) == Ok::<Seq<(u16, u16)>, Seq<char>>(r@),
        decreases values@.len() - i,
    {
        assert(all.take(i + 1).drop_last() =~= all.take(i as int));
        assert(all.take(i + 1).last() == values@[i as int]@);
        match parse_vid_pid(values[i].as_str()) {
            Some(id) => r.push(id),
            None => {
                proof {
                    lemma_vid_pids_prefix(all, i + 1);
                }
                return Err(values[i].clone());
            },
        }
        i += 1;
    }
    assert(all.take(all.len() as int) =~= all);
    Ok(r)
}

/// Whether a device is to be shared.
#[derive(Clone, Copy, Debug, PartialEq, Eq, Structural)]
pub enum Selection {
    No,
    Yes,
    /// If its serial number is one of those that were given.
    BySerial,
}

impl BindView {
    /// Whether a device is to be shared, as far as its descriptor tells.
    /// Vendor ids, product ids and pairs restrict the devices, each kind only
    /// if some were given.
    pub open spec fn selection(self, vendor_id: u16, product_id: u16) -> Selection {
        if self.vid_pids.len() > 0 && !self.vid_pids.contains((vendor_id, product_id)) {
            Selection::No
        } else if self.vids.len() > 0 && !self.vids.contains(vendor_id) {
            Selection::No
        } else if self.pids.len() > 0 && !self.pids.contains(product_id) {
            Selection::No
        } else if self.serials.len() == 0 {
            Selection::Yes
        } else {
            Selection::BySerial
        }
    }

    /// Whether a device with a serial number that could be read, or not, is
    /// shared.
    pub open spec fn shares(
        self,
        vendor_id: u16,
        product_id: u16,
        serial: Option<Seq<char>>,
    ) -> bool {
        match self.selection(vendor_id, product_id) {
            Selection::No => false,
            Selection::Yes => true,
            Selection::BySerial => serial is Some && self.serials.contains(serial->0),
        }
    }
}

impl BindOptions {
    /// Reads the arguments of `bind`.
    pub fn parse(args: &[String]) -> (r: Result<Self, BindError>)
        ensures
            match bind_options(string_views(args@)) {
                Ok(options) => r is Ok && r->Ok_0@ == options,
                Err(e) => r is Err && r->Err_0@ == e,
            },
    {
        let serials = keep_non_blank(option_values(args, "--serial"));
        let vids = match parse_hex_ids(option_values(args, "--vid")) {
            Ok(vids) => vids,
            Err(value) => return Err(BindError::InvalidVid(value)),
        };
        let pids = match parse_hex_ids(option_values(args, "--pid")) {
            Ok(pids) => pids,
            Err(value) => return Err(BindError::InvalidPid(value)),
        };
        let vid_pids = match parse_vid_pids(option_values(args, "--device")) {
            Ok(vid_pids) => vid_pids,
            Err(value) => return Err(BindError::InvalidDevice(value)),
        };
        if serials.len() == 0 && vids.len() == 0 && pids.len() == 0 && vid_pids.len() == 0 {
            return Err(BindError::NothingSelected);
        }
        let listen = match option_value(args, "--listen") {
            Some(listen) => listen,
            None => DEFAULT_LISTEN.to_owned(),
        };
        Ok(
            BindOptions {
                serials,
                vids,
                pids,
                vid_pids,
                listen,
                allow_clients: option_values(args, "--allow-client"),
                allow_any_client: has_flag(args, "--allow-any-client"),
                stop_adb: has_flag(args, "--stop-adb"),
            },
        )
    }

    /// Whether a device is to be shared, as far as its descriptor tells.
    pub fn select(&self, vendor_id: u16, product_id: u16) -> (r: Selection)
        ensures
            r == self@.selection(vendor_id, product_id),
    {
        if self.vid_pids.len() > 0 && !pair_listed(&self.vid_pids, vendor_id, product_id) {
            return Selection::No;
        }
        if self.vids.len() > 0 && !id_listed(&self.vids, vendor_id) {
            return Selection::No;
        }
        if self.pids.len() > 0 && !id_listed(&self.pids, product_id) {
            return Selection::No;
        }
        if self.serials.len() == 0 {
            Selection::Yes
        } else {
            Selection::BySerial
        }
    }

    /// Whether a serial number is one of those that were given.
    pub fn selects_serial(&self, serial: &str) -> (r: bool)
        ensures
            r == self@.serials.contains(serial@),
    {
        has_flag(self.serials.as_slice(), serial)
    }
}

fn id_listed(ids: &Vec<u16>, id: u16) -> (r: bool)
    ensures
        r == ids@.contains(id),
{
    let mut i: usize = 0;
    while i < ids.len()
        invariant
            i <= ids@.len(),
            forall|j: int| 0 <= j < i ==> ids@[j] != id,
        decreases ids@.len() - i,
    {
        if ids[i] == id {
            return true;
        }
        i += 1;
    }
    false
}

fn pair_listed(pairs: &Vec<(u16, u16)>, vid: u16, pid: u16) -> (r: bool)
    ensures
        r == pairs@.contains((vid, pid)),
{
    let mut i: usize = 0;
    while i < pairs.len()
        invariant
            i <= pairs@.len(),
            forall|j: int| 0 <= j < i ==> pairs@[j] != (vid, pid),
        decreases pairs@.len() - i,
    {
        if pairs[i].0 == vid && pairs[i].1 == pid {
            assert(pairs@[i as int] == (vid, pid));
            return true;
        }
        i += 1;
    }
    false
}

/// The command that stops the ADB server: of the user who called `sudo`, if
/// there is one other than root.
pub open spec fn adb_stop(sudo_user: Option<Seq<char>>) -> Seq<Seq<char>> {
    if sudo_user is Some && sudo_user->0.len() > 0 && sudo_user->0 != "root"@ {
        seq!["sudo"@, "-u"@, sudo_user->0, "-H"@, "adb"@, "kill-server"@]
    } else {
        seq!["adb"@, "kill-server"@]
    }
}

/// The command that stops the ADB server.
pub fn adb_stop_command(sudo_user: Option<String>) -> (r: Vec<String>)
    ensures
        string_views(r@) == adb_stop(
            match sudo_user {
                Some(user) => Some(user@),
                None => None,
            },
        ),
{
    let mut r: Vec<String> = Vec::new();
    match sudo_user {
        Some(user) => {
            proof {
                reveal_strlit("");
            }
            assert(user@.len() == 0 <==> user@ =~= ""@);
            if !str_eq(user.as_str(), "") && !str_eq(user.as_str(), "root") {
                let ghost name = user@;
                r.push("sudo".to_owned());
                r.push("-u".to_owned());
                r.push(user);
                r.push("-H".to_owned());
                r.push("adb".to_owned());
                r.push("kill-server".to_owned());
                assert(string_views(r@) =~= adb_stop(Some(name)));
                return r;
            }
        },
        None => {},
    }
    r.push("adb".to_owned());
    r.push("kill-server".to_owned());
    assert(string_views(r@) =~= seq!["adb"@, "kill-server"@]);
    r
}

/// Whoever gave pairs gets no device beyond them: vendor and product ids of
/// different pairs are never combined.
pub proof fn law_pairs_are_not_mixed(
    options: BindView,
    vendor_id: u16,
    product_id: u16,
    serial: Option<Seq<char>>,
)
    requires
        options.vid_pids.len() > 0,
        options.shares(vendor_id, product_id, serial),
    ensures
        options.vid_pids.contains((vendor_id, product_id)),
{
}

/// Arguments that make sense select some devices by something, so nothing is
/// shared by accident.
pub proof fn law_something_selects(args: Seq<Seq<char>>)
    ensures
        bind_options(args) matches Ok(options) ==> options.serials.len() > 0 || options.vids.len()
            > 0 || options.pids.len() > 0 || options.vid_pids.len() > 0,
{
}

/// A number means the same with the mark `0x` and without it.
pub proof fn law_mark_does_not_matter(s: Seq<char>)
    ensures
        hex_id(seq!['0', 'x'] + s) == hex_id(s),
{
    assert((seq!['0', 'x'] + s).skip(2) =~= s);
}

/// What the first argument means; without one, help is shown.
pub proof fn law_what_the_first_argument_means(args: Seq<Seq<char>>)
    ensures
        args.len() == 0 ==> invocation(args) is Help,
        args.len() > 0 && (args[0] == "help"@ || args[0] == "--help"@ || args[0] == "-h"@)
            ==> invocation(args) is Help,
        args.len() > 0 && (args[0] == "version"@ || args[0] == "--version"@ || args[0] == "-V"@)
            ==> invocation(args) is Version,
        args.len() > 0 && args[0] == "bind"@ ==> invocation(args) is Bind,
        invocation(args) is Help ==> args.len() == 0 || args[0] == "help"@ || args[0] == "--help"@
            || args[0] == "-h"@,
        invocation(args) is Version ==> args[0] == "version"@ || args[0] == "--version"@ || args[0]
            == "-V"@,
        invocation(args) is Bind ==> args[0] == "bind"@,
        invocation(args) matches InvocationView::Unknown(command) ==> command == args[0],
{
    reveal_strlit("help");
    reveal_strlit("--help");
    reveal_strlit("-h");
    reveal_strlit("version");
    reveal_strlit("--version");
    reveal_strlit("-V");
    reveal_strlit("bind");
    if args.len() > 0 {
        let a = args[0];
        assert(a == "help"@ ==> a.len() == 4 && a[0] == 'h');
        assert(a == "--help"@ ==> a.len() == 6);
        assert(a == "-h"@ ==> a.len() == 2 && a[1] == 'h');
        assert(a == "version"@ ==> a.len() == 7);
        assert(a == "--version"@ ==> a.len() == 9);
        assert(a == "-V"@ ==> a.len() == 2 && a[1] == 'V');
        assert(a == "bind"@ ==> a.len() == 4 && a[0] == 'b');
    }
}

/// The values of an option are the arguments that stand right after its name,
/// each of them and no others; a further argument adds itself at the end if it
/// stands after the name.
pub proof fn law_values_stand_after_the_name(
    args: Seq<Seq<char>>,
    name: Seq<char>,
    value: Seq<char>,
)
    ensures
        values_of(args, name).contains(value) <==> exists|i: int|
            0 <= i < args.len() - 1 && #[trigger] args[i] == name && args[i + 1] == value,
        args.len() > 0 && args.last() == name ==> values_of(args.push(value), name) == values_of(
            args,
            name,
        ).push(value),
        args.len() == 0 || args.last() != name ==> values_of(args.push(value), name) == values_of(
            args,
            name,
        ),
{
    lemma_values_of(args, name, value);
    assert(args.push(value).drop_last() =~= args);
    if args.len() == 0 {
        assert(values_of(args.push(value), name) =~= values_of(args, name));
    }
}

proof fn lemma_values_of(args: Seq<Seq<char>>, name: Seq<char>, value: Seq<char>)
    ensures
        values_of(args, name).contains(value) <==> exists|i: int|
            0 <= i < args.len() - 1 && #[trigger] args[i] == name && args[i + 1] == value,
    decreases args.len(),
{
    if args.len() >= 2 {
        let shorter = args.drop_last();
        let before = values_of(shorter, name);
        lemma_values_of(shorter, name, value);
        let at = args.len() - 2;
        if values_of(args, name).contains(value) {
            if before.contains(value) {
                let i = choose|i: int|
                    0 <= i < shorter.len() - 1 && #[trigger] shorter[i] == name && shorter[i + 1]
                        == value;
                assert(args[i] == name && args[i + 1] == value);
            } else {
                let k = choose|k: int|
                    0 <= k < values_of(args, name).len() && values_of(args, name)[k] == value;
                if k < before.len() {
                    assert(before[k] == value);
                }
                assert(args[at] == name && args[at + 1] == value);
            }
        }
        if exists|i: int|
            0 <= i < args.len() - 1 && #[trigger] args[i] == name && args[i + 1] == value {
            let i = choose|i: int|
                0 <= i < args.len() - 1 && #[trigger] args[i] == name && args[i + 1] == value;
            if i < at {
                assert(shorter[i] == name && shorter[i + 1] == value);
                let k = choose|k: int| 0 <= k < before.len() && before[k] == value;
                assert(values_of(args, name)[k] == value);
            } else {
                assert(values_of(args, name)[before.len() as int] == value);
            }
        }
    }
}

/// A text without white space around it begins and ends with something else,
/// and only white space was taken away.
pub proof fn law_trim_takes_white_space_away(s: Seq<char>)
    ensures
        trim(s).len() > 0 ==> !white(trim(s)[0]) && !white(trim(s).last()),
        exists|from: int, to: int|
            {
                &&& 0 <= from <= to <= s.len()
                &&& trim(s) == #[trigger] s.subrange(from, to)
                &&& forall|i: int| 0 <= i < from ==> white(#[trigger] s[i])
                &&& forall|i: int| to <= i < s.len() ==> white(#[trigger] s[i])
            },
{
    lemma_trim_start(s);
    let from = s.len() - trim_start(s).len();
    lemma_trim_end(trim_start(s));
    let to = from + trim(s).len();
    let t = trim_start(s);
    assert(trim(s) =~= s.subrange(from, to));
    assert forall|i: int| to <= i < s.len() implies white(#[trigger] s[i]) by {
        assert(t[i - from] == s[i]);
    }
}

proof fn lemma_trim_start(s: Seq<char>)
    ensures
        trim_start(s).len() <= s.len(),
        trim_start(s) == s.skip(s.len() - trim_start(s).len()),
        trim_start(s).len() > 0 ==> !white(trim_start(s)[0]),
        forall|i: int| 0 <= i < s.len() - trim_start(s).len() ==> white(#[trigger] s[i]),
    decreases s.len(),
{
    if s.len() > 0 && white(s[0]) {
        let t = s.skip(1);
        lemma_trim_start(t);
        assert(trim_start(s) =~= s.skip(s.len() - trim_start(s).len()));
        assert forall|i: int| 0 <= i < s.len() - trim_start(s).len() implies white(
            #[trigger] s[i],
        ) by {
            if i > 0 {
                assert(t[i - 1] == s[i]);
            }
        }
    } else {
        assert(s.skip(0) =~= s);
    }
}

proof fn lemma_trim_end(s: Seq<char>)
    ensures
        trim_end(s).len() <= s.len(),
        trim_end(s) == s.take(trim_end(s).len() as int),
        trim_end(s).len() > 0 ==> !white(trim_end(s).last()),
        forall|i: int| trim_end(s).len() <= i < s.len() ==> white(#[trigger] s[i]),
    decreases s.len(),
{
    if s.len() > 0 && white(s.last()) {
        let t = s.drop_last();
        lemma_trim_end(t);
        assert(trim_end(s) =~= s.take(trim_end(s).len() as int));
        assert forall|i: int| trim_end(s).len() <= i < s.len() implies white(#[trigger] s[i]) by {
            if i < t.len() {
                assert(t[i] == s[i]);
            }
        }
    } else {
        assert(s.take(s.len() as int) =~= s);
    }
}

/// A text without the mark does not begin with it, and a mark in front of it
/// goes away.
pub proof fn law_marks_are_taken_away(s: Seq<char>, first: char, second: char)
    ensures
        strip(seq![first, second] + s, first, second) == strip(s, first, second),
        strip(s, first, second).len() >= 2 ==> !(strip(s, first, second)[0] == first && strip(
            s,
            first,
            second,
        )[1] == second),
        !(s.len() >= 2 && s[0] == first && s[1] == second) ==> strip(s, first, second) == s,
    decreases s.len(),
{
    assert((seq![first, second] + s).skip(2) =~= s);
    if s.len() >= 2 && s[0] == first && s[1] == second {
        law_marks_are_taken_away(s.skip(2), first, second);
    }
}

/// A hexadecimal digit has its value, and no other character has one.
pub proof fn law_digit_values(c: char)
    ensures
        digit(c) matches Some(d) ==> 0 <= d < 16 && (upper_digits()[d] == c || lower_digits()[d]
            == c),
        digit(c) is None ==> !upper_digits().contains(c) && !lower_digits().contains(c),
{
    let u = upper_digits();
    let l = lower_digits();
    if digit(c) is None {
        assert(forall|i: int| 0 <= i < 16 ==> #[trigger] u[i] != c);
        assert(forall|i: int| 0 <= i < 16 ==> #[trigger] l[i] != c);
    }
}

/// A 16-bit number in hexadecimal is read as itself, in capitals or not, with
/// the mark `0x` or `0X` or without one.
pub proof fn law_numbers_are_read_as_written(n: u16)
    ensures
        hex_id(hex(n as nat, lower_digits())) == Some(n),
        hex_id(hex(n as nat, upper_digits())) == Some(n),
        hex_id(seq!['0', 'x'] + hex(n as nat, lower_digits())) == Some(n),
        hex_id(seq!['0', 'X'] + hex(n as nat, upper_digits())) == Some(n),
{
    let l = hex(n as nat, lower_digits());
    let u = hex(n as nat, upper_digits());
    lemma_hex_is_read(n as nat, lower_digits());
    lemma_hex_is_read(n as nat, upper_digits());
    law_mark_does_not_matter(l);
    law_marks_are_taken_away(u, '0', 'X');
    let marked = seq!['0', 'X'] + u;
    assert(marked[1] == 'X');
    assert(strip(marked, '0', 'x') == marked);
}

proof fn lemma_hex_is_read(n: nat, digits: Seq<char>)
    requires
        digits == lower_digits() || digits == upper_digits(),
    ensures
        digits_value(hex(n, digits)) == Some(n as int),
        hex(n, digits).len() > 0,
        forall|i: int|
            0 <= i < hex(n, digits).len() ==> digit(#[trigger] hex(n, digits)[i]) is Some,
    decreases n,
{
    let s = hex(n, digits);
    if n < 16 {
        assert(s.drop_last() =~= Seq::<char>::empty());
        reveal_with_fuel(digits_value, 2);
        assert(digit(digits[n as int]) == Some(n as int));
    } else {
        lemma_hex_is_read(n / 16, digits);
        assert(s.drop_last() =~= hex(n / 16, digits));
        assert(digit(digits[(n % 16) as int]) == Some((n % 16) as int));
        assert forall|i: int| 0 <= i < s.len() implies digit(#[trigger] s[i]) is Some by {
            if i < s.len() - 1 {
                assert(s[i] == hex(n / 16, digits)[i]);
            }
        }
    }
}

/// What follows a plus sign, if there is one.
pub open spec fn after_plus(s: Seq<char>) -> Seq<char> {
    if s.len() > 0 && s[0] == '+' {
        s.skip(1)
    } else {
        s
    }
}

/// A text that is read as a number consists of hexadecimal digits, at least one,
/// after a plus sign perhaps, and stands for that number.
pub proof fn law_only_numbers_are_read(s: Seq<char>)
    ensures
        hex_number(s) matches Some(n) ==> {
            &&& after_plus(s).len() > 0
            &&& forall|i: int|
                0 <= i < after_plus(s).len() ==> digit(#[trigger] after_plus(s)[i]) is Some
            &&& digits_weight(after_plus(s), 16) == n
        },
{
    if hex_number(s) is Some {
        lemma_digits_have_weight(after_plus(s));
        lemma_digits_value_nonnegative(after_plus(s));
    }
}

proof fn lemma_digits_have_weight(s: Seq<char>)
    requires
        digits_value(s) is Some,
    ensures
        forall|i: int| 0 <= i < s.len() ==> digit(#[trigger] s[i]) is Some,
        digits_weight(s, 16) == digits_value(s)->0,
    decreases s.len(),
{
    if s.len() > 0 {
        let t = s.drop_last();
        lemma_digits_have_weight(t);
        assert forall|i: int| 0 <= i < s.len() implies digit(#[trigger] s[i]) is Some by {
            if i < t.len() {
                assert(t[i] == s[i]);
            }
        }
    }
}

/// Digits are read as the number that they stand for, if that fits in 16 bits,
/// and as none otherwise; a plus sign in front changes nothing.
pub proof fn law_numbers_are_read(s: Seq<char>)
    requires
        s.len() > 0,
        forall|i: int| 0 <= i < s.len() ==> digit(#[trigger] s[i]) is Some,
    ensures
        digits_weight(s, 16) <= 0xffff ==> hex_number(s) == Some(digits_weight(s, 16) as u16),
        digits_weight(s, 16) > 0xffff ==> hex_number(s) is None,
        hex_number(seq!['+'] + s) == hex_number(s),
{
    lemma_digits_are_read(s);
    lemma_digits_have_weight(s);
    lemma_digits_value_nonnegative(s);
    assert((seq!['+'] + s).skip(1) =~= s);
    assert(digit(s[0]) is Some);
}

proof fn lemma_digits_are_read(s: Seq<char>)
    requires
        forall|i: int| 0 <= i < s.len() ==> digit(#[trigger] s[i]) is Some,
    ensures
        digits_value(s) is Some,
    decreases s.len(),
{
    if s.len() > 0 {
        let t = s.drop_last();
        assert forall|i: int| 0 <= i < t.len() implies digit(#[trigger] t[i]) is Some by {
            assert(t[i] == s[i]);
        }
        lemma_digits_are_read(t);
        assert(digit(s[s.len() - 1]) is Some);
    }
}

/// Two numbers of four characters with a colon between them are read as a pair,
/// and anything else, but for white space and marks around it, as none.
pub proof fn law_pairs_are_read(s: Seq<char>, vid: Seq<char>, pid: Seq<char>)
    requires
        vid.len() == 4,
        pid.len() == 4,
        hex_number(vid) is Some,
        hex_number(pid) is Some,
        strip_marks(trim(s)) == vid + seq![':'] + pid,
    ensures
        vid_pid(s) == Some((hex_number(vid)->0, hex_number(pid)->0)),
{
    let value = vid + seq![':'] + pid;
    lemma_no_colon(vid);
    assert forall|i: int| 0 <= i < 4 implies value[i] != ':' by {
        assert(value[i] == vid[i]);
    }
    assert(value[4] == ':');
    reveal_with_fuel(colon, 6);
    assert(colon(value, 0) == 4);
    assert(value.take(4) =~= vid);
    assert(value.skip(5) =~= pid);
}

proof fn lemma_no_colon(s: Seq<char>)
    requires
        hex_number(s) is Some,
    ensures
        forall|i: int| 0 <= i < s.len() ==> #[trigger] s[i] != ':',
{
    law_only_numbers_are_read(s);
    assert forall|i: int| 0 <= i < s.len() implies #[trigger] s[i] != ':' by {
        if s[0] == '+' && i > 0 {
            assert(digit(after_plus(s)[i - 1]) is Some);
            assert(after_plus(s)[i - 1] == s[i]);
        } else if s[0] != '+' {
            assert(digit(after_plus(s)[i]) is Some);
        }
    }
}

proof fn lemma_colon(s: Seq<char>, from: int)
    requires
        0 <= from <= s.len(),
    ensures
        from <= colon(s, from) <= s.len(),
        colon(s, from) < s.len() ==> s[colon(s, from)] == ':',
    decreases s.len() - from,
{
    if from < s.len() && s[from] != ':' {
        lemma_colon(s, from + 1);
    }
}

/// A text that is read as a pair is two numbers of four characters with a colon
/// between them, but for white space and marks around it.
pub proof fn law_only_pairs_are_read(s: Seq<char>)
    ensures
        vid_pid(s) matches Some((vid, pid)) ==> {
            let value = strip_marks(trim(s));
            &&& value.len() == 9
            &&& value[4] == ':'
            &&& hex_number(value.subrange(0, 4)) == Some(vid)
            &&& hex_number(value.subrange(5, 9)) == Some(pid)
        },
{
    if vid_pid(s) is Some {
        let value = strip_marks(trim(s));
        lemma_colon(value, 0);
        assert(value.take(4) =~= value.subrange(0, 4));
        assert(value.skip(5) =~= value.subrange(5, 9));
    }
}

/// The marks before a number are any number of `0x`, and then of `0X`.
pub proof fn law_which_marks_are_taken_away(s: Seq<char>)
    ensures
        strip_marks(s) == strip(strip(s, '0', 'x'), '0', 'X'),
        hex_id(s) == hex_number(strip_marks(s)),
{
}

/// Of the serial numbers those stay, in their order, that hold more than white
/// space.
pub proof fn law_blank_values_are_left_out(values: Seq<Seq<char>>, value: Seq<char>)
    ensures
        non_blank(seq![]).len() == 0,
        non_blank(values.push(value)) == (if exists|i: int|
            0 <= i < value.len() && !white(#[trigger] value[i]) {
            non_blank(values).push(value)
        } else {
            non_blank(values)
        }),
{
    assert(values.push(value).drop_last() =~= values);
    lemma_trim_start(value);
    lemma_trim_end(trim_start(value));
    let t = trim_start(value);
    if trim(value).len() > 0 {
        assert(!white(t[0])) by {
            assert(t.len() > 0);
        }
        assert(t[0] == value[value.len() - t.len()]);
    } else {
        assert forall|i: int| 0 <= i < value.len() implies white(#[trigger] value[i]) by {
            if i >= value.len() - t.len() {
                assert(t[i - (value.len() - t.len())] == value[i]);
            }
        }
    }
}

/// The numbers of an option are those of its values, one for each and in their
/// order, if all of them are numbers, and the first value that is none
/// otherwise; likewise the pairs.
pub proof fn law_values_are_read_one_by_one(values: Seq<Seq<char>>)
    ensures
        match hex_ids(values) {
            Ok(ids) => {
                &&& ids.len() == values.len()
                &&& forall|i: int|
                    0 <= i < values.len() ==> hex_id(#[trigger] values[i]) == Some(ids[i])
            },
            Err(bad) => exists|k: int|
                {
                    &&& 0 <= k < values.len()
                    &&& #[trigger] values[k] == bad
                    &&& hex_id(bad) is None
                    &&& forall|i: int| 0 <= i < k ==> hex_id(#[trigger] values[i]) is Some
                },
        },
        match vid_pids(values) {
            Ok(ids) => {
                &&& ids.len() == values.len()
                &&& forall|i: int|
                    0 <= i < values.len() ==> vid_pid(#[trigger] values[i]) == Some(ids[i])
            },
            Err(bad) => exists|k: int|
                {
                    &&& 0 <= k < values.len()
                    &&& #[trigger] values[k] == bad
                    &&& vid_pid(bad) is None
                    &&& forall|i: int| 0 <= i < k ==> vid_pid(#[trigger] values[i]) is Some
                },
        },
    decreases values.len(),
{
    if values.len() > 0 {
        let before = values.drop_last();
        law_values_are_read_one_by_one(before);
        let last = values.len() - 1;
        assert forall|i: int| 0 <= i < before.len() implies #[trigger] values[i] == before[i] by {}
        assert(values[last] == values.last());
        if let Err(bad) = hex_ids(before) {
            let k = choose|k: int|
                {
                    &&& 0 <= k < before.len()
                    &&& #[trigger] before[k] == bad
                    &&& hex_id(bad) is None
                    &&& forall|i: int| 0 <= i < k ==> hex_id(#[trigger] before[i]) is Some
                };
            assert(values[k] == bad);
        }
        if let Err(bad) = vid_pids(before) {
            let k = choose|k: int|
                {
                    &&& 0 <= k < before.len()
                    &&& #[trigger] before[k] == bad
                    &&& vid_pid(bad) is None
                    &&& forall|i: int| 0 <= i < k ==> vid_pid(#[trigger] before[i]) is Some
                };
            assert(values[k] == bad);
        }
    }
}

/// Each option of `bind` goes where it belongs: serial numbers, vendor ids,
/// product ids and pairs to the filters, the first address to listen on, or
/// 127.0.0.1:3240 without one, all addresses of clients, and the two flags.
pub proof fn law_options_go_where_they_belong(args: Seq<Seq<char>>)
    ensures
        bind_options(args) matches Ok(options) ==> {
            let listen = values_of(args, "--listen"@);
            &&& options.serials == non_blank(values_of(args, "--serial"@))
            &&& hex_ids(values_of(args, "--vid"@)) == Ok::<Seq<u16>, Seq<char>>(options.vids)
            &&& hex_ids(values_of(args, "--pid"@)) == Ok::<Seq<u16>, Seq<char>>(options.pids)
            &&& vid_pids(values_of(args, "--device"@)) == Ok::<Seq<(u16, u16)>, Seq<char>>(
                options.vid_pids,
            )
            &&& listen.len() == 0 ==> options.listen == "127.0.0.1:3240"@
            &&& listen.len() > 0 ==> options.listen == listen[0]
            &&& options.allow_clients == values_of(args, "--allow-client"@)
            &&& options.allow_any_client == args.contains("--allow-any-client"@)
            &&& options.stop_adb == args.contains("--stop-adb"@)
        },
{
}

/// The arguments of `bind` are refused for the first vendor id that is no
/// number, then for such a product id, then for such a pair, and then if they
/// select nothing; and for nothing else.
pub proof fn law_which_arguments_are_refused(args: Seq<Seq<char>>)
    ensures
        ({
            let vids = hex_ids(values_of(args, "--vid"@));
            let pids = hex_ids(values_of(args, "--pid"@));
            let pairs = vid_pids(values_of(args, "--device"@));
            let refused = bind_options(args);
            if vids is Err {
                refused == Err::<BindView, BindErrorView>(BindErrorView::InvalidVid(vids->Err_0))
            } else if pids is Err {
                refused == Err::<BindView, BindErrorView>(BindErrorView::InvalidPid(pids->Err_0))
            } else if pairs is Err {
                refused == Err::<BindView, BindErrorView>(
                    BindErrorView::InvalidDevice(pairs->Err_0),
                )
            } else {
                refused is Err <==> {
                    &&& non_blank(values_of(args, "--serial"@)).len() == 0
                    &&& vids->Ok_0.len() == 0
                    &&& pids->Ok_0.len() == 0
                    &&& pairs->Ok_0.len() == 0
                }
            }
        }),
        bind_options(args) matches Err(e) ==> e is InvalidVid || e is InvalidPid
            || e is InvalidDevice || e is NothingSelected,
        hex_ids(values_of(args, "--vid"@)) is Ok && hex_ids(values_of(args, "--pid"@)) is Ok
            && vid_pids(values_of(args, "--device"@)) is Ok && bind_options(args) is Err
            ==> bind_options(args)->Err_0 is NothingSelected,
{
}

/// The messages for arguments that are refused name them.
pub proof fn law_bind_messages(v: Seq<char>)
    ensures
        BindErrorView::InvalidVid(v).text() == "invalid --vid: "@ + v,
        BindErrorView::InvalidPid(v).text() == "invalid --pid: "@ + v,
        BindErrorView::InvalidDevice(v).text()
            == "invalid --device (expected VID:PID, e.g. 2207:0006): "@ + v,
        BindErrorView::NothingSelected.text()
            == "at least one of --serial/--vid/--pid/--device is required"@,
{
}

/// A device is shared exactly if it meets every kind of filter that was given:
/// its vendor id, its product id and the two of them as a pair are among those
/// given, and so is its serial number, which then has to be known.
pub proof fn law_shared_devices_meet_every_filter(
    options: BindView,
    vendor_id: u16,
    product_id: u16,
    serial: Option<Seq<char>>,
)
    ensures
        options.shares(vendor_id, product_id, serial) <==> {
            &&& options.vids.len() > 0 ==> options.vids.contains(vendor_id)
            &&& options.pids.len() > 0 ==> options.pids.contains(product_id)
            &&& options.vid_pids.len() > 0 ==> options.vid_pids.contains((vendor_id, product_id))
            &&& options.serials.len() > 0 ==> serial is Some && options.serials.contains(serial->0)
        },
{
}

/// The serial number of a device is asked for exactly if it decides: a device
/// is refused or shared without it only if that holds whatever it is.
pub proof fn law_serial_numbers_are_asked_for_where_they_decide(
    options: BindView,
    vendor_id: u16,
    product_id: u16,
    serial: Option<Seq<char>>,
)
    ensures
        options.selection(vendor_id, product_id) is Yes ==> options.serials.len() == 0
            && options.shares(vendor_id, product_id, serial),
        options.selection(vendor_id, product_id) is No ==> !options.shares(
            vendor_id,
            product_id,
            serial,
        ),
        options.selection(vendor_id, product_id) is BySerial ==> options.serials.len() > 0 && (
        options.shares(vendor_id, product_id, serial) <==> serial is Some
            && options.serials.contains(serial->0)),
        options.serials.len() > 0 ==> !(options.selection(vendor_id, product_id) is Yes),
        options.selection(vendor_id, product_id) is No <==> !({
            &&& options.vids.len() > 0 ==> options.vids.contains(vendor_id)
            &&& options.pids.len() > 0 ==> options.pids.contains(product_id)
            &&& options.vid_pids.len() > 0 ==> options.vid_pids.contains((vendor_id, product_id))
        }),
{
}

/// ADB is stopped as the user who called `sudo`, and directly where there is
/// none or it is root.
pub proof fn law_how_adb_is_stopped(user: Seq<char>)
    ensures
        adb_stop(None) == seq!["adb"@, "kill-server"@],
        user.len() == 0 || user == "root"@ ==> adb_stop(Some(user)) == seq![
            "adb"@,
            "kill-server"@,
        ],
        user.len() > 0 && user != "root"@ ==> adb_stop(Some(user)) == seq![
            "sudo"@,
            "-u"@,
            user,
            "-H"@,
            "adb"@,
            "kill-server"@,
        ],
{
}

/// The models of options and of what is asked for have what these have.
pub proof fn law_command_line_models(o: BindOptions, i: Invocation, e: BindError)
    ensures
        o@.serials == string_views(o.serials@),
        o@.vids == o.vids@,
        o@.pids == o.pids@,
        o@.vid_pids == o.vid_pids@,
        o@.listen == o.listen@,
        o@.allow_clients == string_views(o.allow_clients@),
        o@.allow_any_client == o.allow_any_client,
        o@.stop_adb == o.stop_adb,
        i is Help <==> i@ is Help,
        i is Version <==> i@ is Version,
        i is Bind <==> i@ is Bind,
        i matches Invocation::Unknown(command) ==> i@ == InvocationView::Unknown(command@),
        match e {
            BindError::InvalidVid(v) => e@ == BindErrorView::InvalidVid(v@),
            BindError::InvalidPid(v) => e@ == BindErrorView::InvalidPid(v@),
            BindError::InvalidDevice(v) => e@ == BindErrorView::InvalidDevice(v@),
            BindError::NothingSelected => e@ is NothingSelected,
        },
{
}

/// White space is what Unicode gives that property: tab, line feed, vertical
/// tab, form feed, carriage return and space, the next line and the no-break
/// space, the spaces of other scripts and widths, and the two separators.
pub proof fn law_what_white_space_is(c: char)
    ensures
        white(c) == ({
            let code = c as int;
            ||| 9 <= code < 14
            ||| code == 32
            ||| code == 133
            ||| code == 160
            ||| code == 5760
            ||| 8192 <= code < 8203
            ||| code == 8232
            ||| code == 8233
            ||| code == 8239
            ||| code == 8287
            ||| code == 12288
        }),
{
}

} // verus!
