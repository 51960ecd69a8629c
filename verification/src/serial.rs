use vstd::prelude::*;

verus! {

/// # Serial Baud
/// Set a supported serial baud rate for serial comms.
#[derive(Clone, Copy, Debug, PartialEq, Eq, Structural)]
pub enum SerialBaud {
    Baud115200,
    Baud57600,
    Baud38400,
    Baud19200,
    Baud14400,
    Baud9600,
    Baud4800,
    Baud2400,
    Baud1200,
    Baud600,
    Baud300,
}

/// The rate in bits per second.
pub open spec fn baud_rate(b: SerialBaud) -> nat {
    match b {
        SerialBaud::Baud115200 => 115200,
        SerialBaud::Baud57600 => 57600,
        SerialBaud::Baud38400 => 38400,
        SerialBaud::Baud19200 => 19200,
        SerialBaud::Baud14400 => 14400,
        SerialBaud::Baud9600 => 9600,
        SerialBaud::Baud4800 => 4800,
        SerialBaud::Baud2400 => 2400,
        SerialBaud::Baud1200 => 1200,
        SerialBaud::Baud600 => 600,
        SerialBaud::Baud300 => 300,
    }
}

/// The rates fall in the order the baud settings are declared, from the full 115200 of the
/// clock down to 300, and each is a whole fraction of the clock, so that a divisor gives it.
pub proof fn lemma_baud_rates_fall()
    ensures
        baud_rate(SerialBaud::Baud115200) == 115200,
        baud_rate(SerialBaud::Baud57600) < baud_rate(SerialBaud::Baud115200),
        baud_rate(SerialBaud::Baud38400) < baud_rate(SerialBaud::Baud57600),
        baud_rate(SerialBaud::Baud19200) < baud_rate(SerialBaud::Baud38400),
        baud_rate(SerialBaud::Baud14400) < baud_rate(SerialBaud::Baud19200),
        baud_rate(SerialBaud::Baud9600) < baud_rate(SerialBaud::Baud14400),
        baud_rate(SerialBaud::Baud4800) < baud_rate(SerialBaud::Baud9600),
        baud_rate(SerialBaud::Baud2400) < baud_rate(SerialBaud::Baud4800),
        baud_rate(SerialBaud::Baud1200) < baud_rate(SerialBaud::Baud2400),
        baud_rate(SerialBaud::Baud600) < baud_rate(SerialBaud::Baud1200),
        baud_rate(SerialBaud::Baud300) < baud_rate(SerialBaud::Baud600),
        baud_rate(SerialBaud::Baud300) == 300,
        forall|b: SerialBaud| 115200nat % #[trigger] baud_rate(b) == 0,
{
}

impl SerialBaud {
    /// # Get Divisor
    /// Get the divisor for serial baud register's clock. This will
    /// get the divisor setting needed to get to one of the set baud
    /// rates.
    pub fn get_divisor(self) -> (r: u16)
        ensures
            r * baud_rate(self) == 115200,
    {
        match self {
            Self::Baud115200 => 1,
            Self::Baud57600 => 2,
            Self::Baud38400 => 3,
            Self::Baud19200 => 6,
            Self::Baud14400 => 8,
            Self::Baud9600 => 12,
            Self::Baud4800 => 24,
            Self::Baud2400 => 48,
            Self::Baud1200 => 96,
            Self::Baud600 => 192,
            Self::Baud300 => 384,
        }
    }
}

} // verus!
