//! Safe, host-testable logic for a Symbian SDK: stored record formats, the file loops
//! that a partial read or a partial write needs, and the state machines that drive the
//! platform's asynchronous services.

pub mod agenda;
pub mod apps;
pub mod backoff;
pub mod blob;
pub mod bt;
pub mod cache;
pub mod caps;
pub mod cenrep;
pub mod clipboard;
pub mod codec;
pub mod cpu;
pub mod daily;
pub mod device;
pub mod error;
pub mod fs;
pub mod hal;
pub mod handlers;
pub mod http;
pub mod image;
pub mod intent;
pub mod locale;
pub mod location;
pub mod log;
pub mod msg;
pub mod net;
pub mod pkg;
pub mod process;
pub mod random;
pub mod skin;
pub mod sql;

pub use error::{Error, Result};
pub use fs::{File, Fs, MemFs, OpenMode, Stat};
pub use image::{Decoder, Image, Images, MemImages};
pub use net::{Bearer, Iap, Ipv4, Lookup, Net, Progress, RawEvent, TcpStream, UdpSocket};

use vstd::prelude::*;

verus! {

/// flogger's log directory: the second rung of the log's ladder, for a handset where
/// `C:\Data\` is not writable.
pub const LOG_DIR: &'static str = "C:\\logs\\";

/// Where an app's own data goes: `C:\Data\`. Always exists, writable with no capability.
pub const DATA_DIR: &'static str = "C:\\Data\\";

/// Where app logs go: `C:\Data\_logs\`, one file per app. The leading underscore sorts it to
/// the top of the file browser, next to `_app_install`.
pub const DATA_LOG_DIR: &'static str = "C:\\Data\\_logs\\";

/// Where a package waits to be installed: `C:\Data\_app_install\`.
pub const APP_INSTALL_DIR: &'static str = "C:\\Data\\_app_install\\";

/// Size at which a log file starts over.
pub const LOG_MAX: u64 = 64 * 1024;

/// A line as it is appended: its bytes, with a newline added when it does not already end
/// in one.
pub open spec fn with_newline(b: Seq<u8>) -> Seq<u8> {
    if b.len() > 0 && b.last() == 10 {
        b
    } else {
        b.push(10)
    }
}

/// Append a line to `C:\Data\_logs\<name>.txt`, the SDK's device-log convention; the file
/// starts over once it passes [`LOG_MAX`].
pub fn applog_to<F: fs::Fs>(fs: &mut F, name: &str, line: &str) -> (r: Result<()>)
    requires
        old(fs).inv(),
    ensures
        final(fs).inv(),
        final(fs).private_dir() == old(fs).private_dir(),
        final(fs).handles().dom().subset_of(old(fs).handles().dom()),
        r is Ok ==> ({
            let p = fs::utf16(log::log_dir() + name@ + ".txt"@);
            let add = with_newline(vstd::string::StringSliceAdditionalSpecFns::spec_bytes(line));
            ||| final(fs).files() == old(fs).files().remove(fs::tmp_of(p)).insert(p, add)
                && fs::contents_or_empty(old(fs).files(), p).len() >= LOG_MAX
            ||| final(fs).files() == old(fs).files().insert(
                p,
                fs::contents_or_empty(old(fs).files(), p) + add,
            )
        }),
        r is Ok && fs::contents_or_empty(old(fs).files(), fs::utf16(log::log_dir() + name@ + ".txt"@)).len()
            < LOG_MAX ==> final(fs).files() == old(fs).files().insert(
            fs::utf16(log::log_dir() + name@ + ".txt"@),
            fs::contents_or_empty(old(fs).files(), fs::utf16(log::log_dir() + name@ + ".txt"@))
                + with_newline(vstd::string::StringSliceAdditionalSpecFns::spec_bytes(line)),
        ),
        fs::utf16(log::log_dir() + name@ + ".txt"@).len() > fs::MAX_PATH ==> r is Err,
        old(fs).steady() ==> final(fs).steady(),
        final(fs).room() + 3 >= old(fs).room(),
        ({
            let p = fs::utf16(log::log_dir() + name@ + ".txt"@);
            let add = with_newline(vstd::string::StringSliceAdditionalSpecFns::spec_bytes(line));
            old(fs).steady() && old(fs).room() >= 3 && fs::tmp_of(p).len() <= fs::MAX_PATH
                && fs::contents_or_empty(old(fs).files(), p).len() + add.len() <= usize::MAX
                ==> r is Ok && final(fs).files() == fs::capped(old(fs).files(), p, add, LOG_MAX)
        }),
{
    let p = log::data_path(name)?;
    let bytes = line.as_bytes();
    let mut buf = vstd::slice::slice_to_vec(bytes);
    let n = buf.len();
    if n == 0 || buf[n - 1] != 10 {
        buf.push(10);
    }
    fs::append_capped(fs, &p, buf.as_slice(), LOG_MAX)
}

} // verus!
