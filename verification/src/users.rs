//! The bot's user records: an id, an optional display name, and whether the
//! user holds super-user powers.

use vstd::prelude::*;

verus! {

#[derive(Clone, Copy, Debug, PartialEq, Eq, Structural)]
pub struct UserId(pub u64);

pub enum User {
    SimpleUser { id: UserId },
    SuperUser { id: UserId, powers: () },
    NamedUser { id: UserId, name: String },
}

/// The decimal digits of `x`, most significant first.
pub open spec fn dec_digits(x: nat) -> Seq<char>
    decreases x,
{
    if x < 10 {
        seq![((48 + x) as u8) as char]
    } else {
        dec_digits(x / 10).push(((48 + x % 10) as u8) as char)
    }
}

/// One decimal digit as text.
fn digit_literal(d: u64) -> (r: &'static str)
    requires
        d < 10,
    ensures
        r@ =~= seq![((48 + d) as u8) as char],
{
    proof {
        reveal_strlit("0");
        reveal_strlit("1");
        reveal_strlit("2");
        reveal_strlit("3");
        reveal_strlit("4");
        reveal_strlit("5");
        reveal_strlit("6");
        reveal_strlit("7");
        reveal_strlit("8");
        reveal_strlit("9");
    }
    if d == 0 {
        "0"
    } else if d == 1 {
        "1"
    } else if d == 2 {
        "2"
    } else if d == 3 {
        "3"
    } else if d == 4 {
        "4"
    } else if d == 5 {
        "5"
    } else if d == 6 {
        "6"
    } else if d == 7 {
        "7"
    } else if d == 8 {
        "8"
    } else {
        "9"
    }
}

/// The plain decimal digits of `x`, most significant first.
fn u64_to_string(x: u64) -> (r: String)
    ensures
        r@ == dec_digits(x as nat),
    decreases x,
{
    let d = x % 10;
    let ds = digit_literal(d);
    if x < 10 {
        String::from_str(ds)
    } else {
        let mut rest = u64_to_string(x / 10);
        rest.append(ds);
        proof {
            assert(rest@ =~= dec_digits((x / 10) as nat).push(((48 + x % 10) as u8) as char));
        }
        rest
    }
}

impl User {
    pub open spec fn spec_id(&self) -> UserId {
        match self {
            User::SimpleUser { id } => *id,
            User::SuperUser { id, .. } => *id,
            User::NamedUser { id, .. } => *id,
        }
    }

    pub fn id(&self) -> (r: UserId)
        ensures
            r == self.spec_id(),
    {
        match self {
            User::SimpleUser { id } => *id,
            User::SuperUser { id, .. } => *id,
            User::NamedUser { id, .. } => *id,
        }
    }

    /// How the user is addressed: the stored name, a generic label from the
    /// id, or the honorific for the super user.
    pub fn name(&self) -> (r: String)
        ensures
            match self {
                User::SimpleUser { id } => r@ == "User "@ + dec_digits(id.0 as nat),
                User::SuperUser { .. } => r@ == "Signore"@,
                User::NamedUser { name, .. } => r@ == name@,
            },
    {
        match self {
            User::SimpleUser { id } => {
                let mut s: String = "User ".to_owned();
                let digits = u64_to_string(id.0);
                s.append(digits.as_str());
                s
            }
            User::SuperUser { .. } => "Signore".to_owned(),
            User::NamedUser { name, .. } => name.clone(),
        }
    }

    pub fn is_super_user(&self) -> (r: bool)
        ensures
            r == (self matches User::SuperUser { .. }),
    {
        match self {
            User::SuperUser { .. } => true,
            _ => false,
        }
    }
}

} // verus!
