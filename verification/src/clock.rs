use vstd::prelude::*;

verus! {

/// The local wall-clock reading the bar displays.
#[derive(Clone, Copy, Debug, PartialEq, Eq)]
pub struct Clock {
    /// Month of the year, from 1.
    pub month: u32,
    /// Day of the month, from 1.
    pub day: u32,
    /// Day of the week, counted from Monday as 0.
    pub weekday: u32,
    pub hour: u32,
    pub minute: u32,
}

impl Clock {
    /// The fields hold a real time of day on a real date.
    pub open spec fn wf(&self) -> bool {
        &&& 1 <= self.month <= 12
        &&& 1 <= self.day <= 31
        &&& self.weekday < 7
        &&& self.hour < 24
        &&& self.minute < 60
    }
}

/// The decimal digit `d`.
pub open spec fn digit(d: int) -> char {
    ((d + 48) as u8) as char
}

/// `n` written with two decimal digits, with a leading zero below ten.
pub open spec fn two_digits(n: int) -> Seq<char> {
    seq![digit(n / 10), digit(n % 10)]
}

/// The English name of the weekday `w`, counted from Monday as 0.
pub open spec fn weekday_name(w: int) -> Seq<char> {
    if w == 0 {
        seq!['M', 'o', 'n', 'd', 'a', 'y']
    } else if w == 1 {
        seq!['T', 'u', 'e', 's', 'd', 'a', 'y']
    } else if w == 2 {
        seq!['W', 'e', 'd', 'n', 'e', 's', 'd', 'a', 'y']
    } else if w == 3 {
        seq!['T', 'h', 'u', 'r', 's', 'd', 'a', 'y']
    } else if w == 4 {
        seq!['F', 'r', 'i', 'd', 'a', 'y']
    } else if w == 5 {
        seq!['S', 'a', 't', 'u', 'r', 'd', 'a', 'y']
    } else {
        seq!['S', 'u', 'n', 'd', 'a', 'y']
    }
}

/// The single character `d` as a string.
fn digit_str(d: u32) -> (r: &'static str)
    requires
        d < 10,
    ensures
        r@ == seq![digit(d as int)],
{
    proof {
        reveal_strlit("0");
        reveal_strlit("1");
        reveal_strlit("2");
        reveal_strlit("3");
        reveal_strlit("4");
        reveal_strlit("5");
        reveal_strlit("6");
        reveal_strlit("7");
        reveal_strlit("8");
        reveal_strlit("9");
    }
    let r = if d == 0 {
        "0"
    } else if d == 1 {
        "1"
    } else if d == 2 {
        "2"
    } else if d == 3 {
        "3"
    } else if d == 4 {
        "4"
    } else if d == 5 {
        "5"
    } else if d == 6 {
        "6"
    } else if d == 7 {
        "7"
    } else if d == 8 {
        "8"
    } else {
        "9"
    };
    assert(r@ =~= seq![digit(d as int)]);
    r
}

/// Appends `n` with two digits to `s`.
fn push_two_digits(s: &mut String, n: u32)
    requires
        n < 100,
    ensures
        final(s)@ == old(s)@ + two_digits(n as int),
{
    s.append(digit_str(n / 10));
    s.append(digit_str(n % 10));
    assert(s@ =~= old(s)@ + two_digits(n as int));
}

impl Clock {
    /// The date as month and day, `MM-DD`.
    pub fn date_label(&self) -> (r: String)
        requires
            self.wf(),
        ensures
            r@ == two_digits(self.month as int) + seq!['-'] + two_digits(self.day as int),
    {
        let mut r = String::new();
        push_two_digits(&mut r, self.month);
        let dash = "-";
        proof {
            reveal_strlit("-");
        }
        r.append(dash);
        push_two_digits(&mut r, self.day);
        r
    }

    /// The time of day, `HH:MM` on a 24-hour clock.
    pub fn time_label(&self) -> (r: String)
        requires
            self.wf(),
        ensures
            r@ == two_digits(self.hour as int) + seq![':'] + two_digits(self.minute as int),
    {
        let mut r = String::new();
        push_two_digits(&mut r, self.hour);
        let colon = ":";
        proof {
            reveal_strlit(":");
        }
        r.append(colon);
        push_two_digits(&mut r, self.minute);
        r
    }

    /// The full English name of the weekday.
    pub fn weekday_label(&self) -> (r: String)
        requires
            self.wf(),
        ensures
            r@ == weekday_name(self.weekday as int),
    {
        proof {
            reveal_strlit("Monday");
            reveal_strlit("Tuesday");
            reveal_strlit("Wednesday");
            reveal_strlit("Thursday");
            reveal_strlit("Friday");
            reveal_strlit("Saturday");
            reveal_strlit("Sunday");
        }
        let name = if self.weekday == 0 {
            "Monday"
        } else if self.weekday == 1 {
            "Tuesday"
        } else if self.weekday == 2 {
            "Wednesday"
        } else if self.weekday == 3 {
            "Thursday"
        } else if self.weekday == 4 {
            "Friday"
        } else if self.weekday == 5 {
            "Saturday"
        } else {
            "Sunday"
        };
        assert(name@ =~= weekday_name(self.weekday as int));
        name.to_owned()
    }
}

} // verus!
