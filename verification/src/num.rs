//! A small trait over the machine integer types, so the decimal formatter
//! can take any of them.

use vstd::prelude::*;

verus! {

/// An integer value that the decimal formatter can render: it exposes its
/// mathematical value, its sign, and its magnitude.
pub trait Num: Copy {
    /// The mathematical value of this number.
    spec fn as_int(self) -> int;

    /// Whether the value is strictly negative.
    fn is_negative(self) -> (r: bool)
        ensures
            r == (self.as_int() < 0),
    ;

    /// The absolute value; every machine integer's magnitude fits in `u128`.
    fn magnitude(self) -> (r: u128)
        ensures
            r as int == vstd::math::abs(self.as_int()),
    ;
}

impl Num for u8 {
    open spec fn as_int(self) -> int {
        self as int
    }

    fn is_negative(self) -> bool {
        false
    }

    fn magnitude(self) -> u128 {
        self as u128
    }
}

impl Num for u16 {
    open spec fn as_int(self) -> int {
        self as int
    }

    fn is_negative(self) -> bool {
        false
    }

    fn magnitude(self) -> u128 {
        self as u128
    }
}

impl Num for u32 {
    open spec fn as_int(self) -> int {
        self as int
    }

    fn is_negative(self) -> bool {
        false
    }

    fn magnitude(self) -> u128 {
        self as u128
    }
}

impl Num for u64 {
    open spec fn as_int(self) -> int {
        self as int
    }

    fn is_negative(self) -> bool {
        false
    }

    fn magnitude(self) -> u128 {
        self as u128
    }
}

impl Num for u128 {
    open spec fn as_int(self) -> int {
        self as int
    }

    fn is_negative(self) -> bool {
        false
    }

    fn magnitude(self) -> u128 {
        self
    }
}

impl Num for usize {
    open spec fn as_int(self) -> int {
        self as int
    }

    fn is_negative(self) -> bool {
        false
    }

    fn magnitude(self) -> u128 {
        self as u128
    }
}

impl Num for i8 {
    open spec fn as_int(self) -> int {
        self as int
    }

    fn is_negative(self) -> bool {
        self < 0
    }

    fn magnitude(self) -> u128 {
        if self < 0 {
            (-(self as i128)) as u128
        } else {
            self as u128
        }
    }
}

impl Num for i16 {
    open spec fn as_int(self) -> int {
        self as int
    }

    fn is_negative(self) -> bool {
        self < 0
    }

    fn magnitude(self) -> u128 {
        if self < 0 {
            (-(self as i128)) as u128
        } else {
            self as u128
        }
    }
}

impl Num for i32 {
    open spec fn as_int(self) -> int {
        self as int
    }

    fn is_negative(self) -> bool {
        self < 0
    }

    fn magnitude(self) -> u128 {
        if self < 0 {
            (-(self as i128)) as u128
        } else {
            self as u128
        }
    }
}

impl Num for i64 {
    open spec fn as_int(self) -> int {
        self as int
    }

    fn is_negative(self) -> bool {
        self < 0
    }

    fn magnitude(self) -> u128 {
        if self < 0 {
            (-(self as i128)) as u128
        } else {
            self as u128
        }
    }
}

impl Num for i128 {
    open spec fn as_int(self) -> int {
        self as int
    }

    fn is_negative(self) -> bool {
        self < 0
    }

    fn magnitude(self) -> u128 {
        if self == i128::MIN {
            (i128::MAX as u128) + 1
        } else if self < 0 {
            (-self) as u128
        } else {
            self as u128
        }
    }
}

impl Num for isize {
    open spec fn as_int(self) -> int {
        self as int
    }

    fn is_negative(self) -> bool {
        self < 0
    }

    fn magnitude(self) -> u128 {
        if self < 0 {
            (-(self as i128)) as u128
        } else {
            self as u128
        }
    }
}

} // verus!
