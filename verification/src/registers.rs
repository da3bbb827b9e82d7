//! Register map of the LED driver chip: the page-select command register,
//! the four register pages, and the registers and values of the function
//! page that the controller programs.

use vstd::prelude::*;

verus! {

/// Command register that selects the current page. It is the only register
/// that is not relative to a page.
pub const CONFIGURE_CMD_PAGE: u8 = 0xFD;

/// Page of the LED on/off bitmap, one bit per channel.
pub const LED_CONTROL_PAGE: u8 = 0x00;

/// Page of the PWM intensities, one byte per channel.
pub const LED_PWM_PAGE: u8 = 0x01;

/// Page of the configuration registers.
pub const FUNCTION_PAGE: u8 = 0x03;

/// Page of the current-tune bytes.
pub const CURRENT_TUNE_PAGE: u8 = 0x04;

/// Configuration register of the function page; its low bit is the mode.
pub const CONFIGURATION_REG: u8 = 0x00;

pub const MSKSW_SHUT_DOWN_MODE: u8 = 0x00;

pub const MSKSW_NORMAL_MODE: u8 = 0x01;

/// Current-drive-mode register.
pub const PDU_REG: u8 = 0x13;

pub const MSKSET_CA_CB_CHANNEL: u8 = 0xAA;

pub const SCAN_PHASE_REG: u8 = 0x14;

pub const MSKPHASE_12CHANNEL: u8 = 0x00;

pub const SLEW_RATE_CONTROL_MODE1_REG: u8 = 0x15;

pub const MSKPWM_DELAY_PHASE_ENABLE: u8 = 0x04;

pub const SLEW_RATE_CONTROL_MODE2_REG: u8 = 0x16;

pub const MSKDRIVING_SINKING_CHHANNEL_SLEWRATE_ENABLE: u8 = 0xC0;

pub const SOFTWARE_SLEEP_REG: u8 = 0x1A;

pub const MSKSLEEP_ENABLE: u8 = 0x02;

pub const MSKSLEEP_DISABLE: u8 = 0x00;

/// Number of bytes of the on/off bitmap.
pub const LED_CONTROL_ON_OFF_LENGTH: usize = 0x18;

/// Number of PWM channels of one chip.
pub const LED_PWM_LENGTH: usize = 0xC0;

/// Number of current-tune bytes.
pub const LED_CURRENT_TUNE_LENGTH: usize = 0x0C;

/// Value that every current-tune byte is set to at start-up.
pub const DEFAULT_CURRENT_TUNE: u8 = 0xFF;

/// Largest number of data bytes that one bus transaction carries.
pub const MAX_BLOCK: usize = 64;

} // verus!
