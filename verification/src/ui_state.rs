use vstd::prelude::*;
use vstd::string::StringExecFns;

verus! {

/// What the announcement area of the HUD shows. The times are counted in
/// milliseconds from the moment the announcement is made.
pub enum AnnouncementState {
    Idle,
    VotingInProgress { prompt: String, vote_ends_in_ms: u64 },
    VoteActiveTime { prompt: String, decision: String, effect_ends_in_ms: u64 },
}

/// The decimal digit `d` (below ten) as a character.
pub open spec fn digit_char(d: nat) -> char {
    if d == 0 {
        '0'
    } else if d == 1 {
        '1'
    } else if d == 2 {
        '2'
    } else if d == 3 {
        '3'
    } else if d == 4 {
        '4'
    } else if d == 5 {
        '5'
    } else if d == 6 {
        '6'
    } else if d == 7 {
        '7'
    } else if d == 8 {
        '8'
    } else {
        '9'
    }
}

/// `n` written in decimal, without leading zeros.
pub open spec fn decimal(n: nat) -> Seq<char>
    decreases n,
{
    if n < 10 {
        seq![digit_char(n)]
    } else {
        decimal(n / 10).push(digit_char(n % 10))
    }
}

fn digit_str(d: u64) -> (s: &'static str)
    requires
        d < 10,
    ensures
        s@ == seq![digit_char(d as nat)],
{
    proof {
        reveal_strlit("0");
        reveal_strlit("1");
        reveal_strlit("2");
        reveal_strlit("3");
        reveal_strlit("4");
        reveal_strlit("5");
        reveal_strlit("6");
        reveal_strlit("7");
        reveal_strlit("8");
        reveal_strlit("9");
    }
    match d {
        0 => "0",
        1 => "1",
        2 => "2",
        3 => "3",
        4 => "4",
        5 => "5",
        6 => "6",
        7 => "7",
        8 => "8",
        _ => "9",
    }
}

/// Appends `n` in decimal to `s`.
pub fn push_decimal(s: &mut String, n: u64)
    ensures
        final(s)@ == old(s)@ + decimal(n as nat),
    decreases n,
{
    if n >= 10 {
        push_decimal(s, n / 10);
    }
    s.append(digit_str(n % 10));
    assert(decimal(n as nat) == if n < 10 {
        seq![digit_char(n as nat)]
    } else {
        decimal((n / 10) as nat).push(digit_char((n % 10) as nat))
    });
}

/// The title of the announcement of a vote.
pub fn voting_title() -> (t: String)
    ensures
        t@ == "The audience is deciding your fate"@,
{
    <String as StringExecFns>::from_str("The audience is deciding your fate")
}

/// The subtitle of the announcement of a vote that ends in `secs` seconds.
pub fn voting_subtitle(secs: u64) -> (t: String)
    ensures
        t@ == "They decide in "@ + decimal(secs as nat) + " seconds"@,
{
    let mut t = <String as StringExecFns>::from_str("They decide in ");
    push_decimal(&mut t, secs);
    t.append(" seconds");
    t
}

/// The title of the announcement that the audience chose `decision`.
pub fn chosen_title(decision: &str) -> (t: String)
    ensures
        t@ == decision@ + " was chosen!"@,
{
    let mut t = <String as StringExecFns>::from_str(decision);
    t.append(" was chosen!");
    t
}

/// The subtitle of the announcement of an effect live for `secs` seconds.
pub fn effect_subtitle(secs: u64) -> (t: String)
    ensures
        t@ == "Effects will last for another "@ + decimal(secs as nat) + " seconds"@,
{
    let mut t = <String as StringExecFns>::from_str("Effects will last for another ");
    push_decimal(&mut t, secs);
    t.append(" seconds");
    t
}

/// The stage of the countdown before a race.
#[derive(PartialEq, Eq, Structural, Clone, Copy)]
pub enum CountdownState {
    Hidden,
    Three,
    Two,
    One,
    Start,
}

/// The countdown stage for the time that separates now from the start of
/// the race, in whole seconds: `Ok(s)` while the start is `s` seconds ahead,
/// `Err(s)` once it is `s` seconds behind.
pub open spec fn countdown_spec(until_start: Result<u64, u64>) -> CountdownState {
    match until_start {
        Ok(s) => if s == 1 {
            CountdownState::Two
        } else if s == 0 {
            CountdownState::One
        } else {
            CountdownState::Three
        },
        Err(s) => if s == 0 {
            CountdownState::Start
        } else {
            CountdownState::Hidden
        },
    }
}

/// While the start is ahead the countdown shows Three, then Two in the
/// last two seconds, then One in the last second; it is never hidden then.
/// Once the start has passed it shows Start for a second, then nothing.
pub proof fn lemma_countdown(s: u64)
    ensures
        s >= 2 ==> countdown_spec(Ok(s)) == CountdownState::Three,
        countdown_spec(Ok(1)) == CountdownState::Two,
        countdown_spec(Ok(0)) == CountdownState::One,
        countdown_spec(Ok(s)) != CountdownState::Hidden,
        countdown_spec(Err(0)) == CountdownState::Start,
        s >= 1 ==> countdown_spec(Err(s)) == CountdownState::Hidden,
{
}

/// The countdown stage that the HUD should show (see `countdown_spec`).
pub fn countdown_state_for(until_start: Result<u64, u64>) -> (c: CountdownState)
    ensures
        c == countdown_spec(until_start),
        until_start matches Ok(s) ==> (s >= 2 <==> c == CountdownState::Three),
        until_start matches Ok(s) ==> (s == 1 <==> c == CountdownState::Two),
        until_start matches Ok(s) ==> (s == 0 <==> c == CountdownState::One),
        until_start is Ok ==> c != CountdownState::Hidden && c != CountdownState::Start,
        until_start matches Err(s) ==> (s == 0 <==> c == CountdownState::Start),
        until_start matches Err(s) ==> (s >= 1 <==> c == CountdownState::Hidden),
{
    match until_start {
        Ok(secs) => match secs {
            1 => CountdownState::Two,
            0 => CountdownState::One,
            _ => CountdownState::Three,
        },
        Err(secs) => match secs {
            0 => CountdownState::Start,
            _ => CountdownState::Hidden,
        },
    }
}

/// Whether the HUD has to change its countdown image: only when the stage
/// it should show differs from the one it shows.
pub fn countdown_changed(shown: CountdownState, correct: CountdownState) -> (r: bool)
    ensures
        r == (shown != correct),
{
    !(shown == correct)
}

/// The place the HUD shows for a reported place: places past fourth are
/// shown as first.
pub fn displayed_place(given_position: u8) -> (p: u8)
    ensures
        p == (if given_position > 4 { 1 } else { given_position }),
{
    if given_position > 4 {
        1
    } else {
        given_position
    }
}

/// The name of the texture for a place (`1st` to `4th`; other places use
/// `1st`).
pub fn place_texture_name(position: u8) -> (name: &'static str)
    ensures
        position == 2 ==> name@ == "2nd"@,
        position == 3 ==> name@ == "3rd"@,
        position == 4 ==> name@ == "4th"@,
        !(position == 2 || position == 3 || position == 4) ==> name@ == "1st"@,
{
    match position {
        1 => "1st",
        2 => "2nd",
        3 => "3rd",
        4 => "4th",
        _ => "1st",
    }
}

/// The index of the image of a place among the four place images.
pub fn place_image_index(position: u8) -> (i: usize)
    requires
        1 <= position <= 4,
    ensures
        i == position - 1,
        i < 4,
{
    (position - 1) as usize
}

/// Minutes, seconds and milliseconds of the race timer for an elapsed time
/// of `secs` whole seconds and `subsec_millis` milliseconds.
pub fn timer_fields(secs: u64, subsec_millis: u32) -> (r: (u64, u64, u32))
    ensures
        r.0 == secs / 60,
        r.1 == secs % 60,
        r.2 == subsec_millis,
        r.0 * 60 + r.1 == secs,
{
    (secs / 60, secs % 60, subsec_millis)
}

/// `k` zero characters.
pub open spec fn zeros(k: nat) -> Seq<char> {
    Seq::new(k, |i: int| '0')
}

/// `n` in decimal, with leading zeros up to `width` characters.
pub open spec fn padded(n: nat, width: nat) -> Seq<char> {
    if decimal(n).len() >= width {
        decimal(n)
    } else {
        zeros((width - decimal(n).len()) as nat) + decimal(n)
    }
}

fn decimal_len(n: u64) -> (l: u64)
    ensures
        l == decimal(n as nat).len(),
        l <= n + 1,
    decreases n,
{
    if n < 10 {
        1
    } else {
        let l = decimal_len(n / 10);
        assert(decimal(n as nat) == decimal((n / 10) as nat).push(digit_char((n % 10) as nat)));
        l + 1
    }
}

/// Appends `n` in decimal to `s`, with leading zeros up to `width`
/// characters.
pub fn push_padded(s: &mut String, n: u64, width: u64)
    ensures
        final(s)@ == old(s)@ + padded(n as nat, width as nat),
{
    let len = decimal_len(n);
    if len < width {
        let mut k: u64 = 0;
        while k < width - len
            invariant
                k <= width - len,
                len < width,
                s@ == old(s)@ + zeros(k as nat),
            decreases width - len - k,
        {
            proof {
                reveal_strlit("0");
            }
            s.append("0");
            k = k + 1;
            assert(s@ =~= old(s)@ + zeros(k as nat));
        }
    }
    let ghost before = s@;
    push_decimal(s, n);
    assert(s@ =~= old(s)@ + padded(n as nat, width as nat));
}

/// The race timer text, minutes, seconds and milliseconds as `mm:ss:mmm`,
/// for an elapsed time of `secs` whole seconds and `subsec_millis`
/// milliseconds.
pub fn timer_text(secs: u64, subsec_millis: u32) -> (t: String)
    ensures
        t@ == padded((secs / 60) as nat, 2) + ":"@ + padded((secs % 60) as nat, 2) + ":"@ + padded(
            subsec_millis as nat,
            3,
        ),
{
    let (minutes, seconds, millis) = timer_fields(secs, subsec_millis);
    let mut t = String::new();
    push_padded(&mut t, minutes, 2);
    t.append(":");
    push_padded(&mut t, seconds, 2);
    t.append(":");
    push_padded(&mut t, millis as u64, 3);
    t
}

/// The lap counter text, `lap <lap>/<number_laps>`.
pub fn lap_text(lap: u8, number_laps: u8) -> (t: String)
    ensures
        t@ == "lap "@ + decimal(lap as nat) + "/"@ + decimal(number_laps as nat),
{
    let mut t = <String as StringExecFns>::from_str("lap ");
    push_decimal(&mut t, lap as u64);
    t.append("/");
    push_decimal(&mut t, number_laps as u64);
    t
}

} // verus!
