//! Linking this device to an account: what the user is shown.

use vstd::prelude::*;
use vstd::string::*;

verus! {

/// A QR code drawn in characters, or why there is none: for some data, with
/// or without a quiet zone around it, and with modules of some size.
pub uninterp spec fn qr_drawing(data: Seq<u8>, quiet_zone: bool, width: u32, height: u32) -> Result<
    Seq<char>,
    Seq<char>,
>;

/// `qrcode::QrCode::new`, and its `render` as characters: the code for some
/// data, or the error's text when the data cannot be encoded. The contract
/// names what comes out.
#[verifier::external_body]
fn draw_qr(data: &[u8], quiet_zone: bool, width: u32, height: u32) -> (r: Result<String, String>)
    requires
        1 <= width <= 8,
        1 <= height <= 8,
    ensures
        match r {
            Ok(drawing) => qr_drawing(data@, quiet_zone, width, height) == Ok::<
                Seq<char>,
                Seq<char>,
            >(drawing@),
            Err(why) => qr_drawing(data@, quiet_zone, width, height) == Err::<Seq<char>, Seq<char>>(
                why@,
            ),
        },
{
    match qrcode::QrCode::new(data) {
        Ok(code) => {
            let mut renderer = code.render::<char>();
            Ok(renderer.quiet_zone(quiet_zone).module_dimensions(width, height).build())
        },
        Err(why) => Err(why.to_string()),
    }
}

/// What the user is shown: the drawing with the address below it, or the
/// address alone when there is no drawing.
pub open spec fn notice(url: Seq<char>, drawing: Result<Seq<char>, Seq<char>>) -> Seq<char> {
    match drawing {
        Ok(drawing) => "\nScan this QR code with Signal (Linked Devices):\n\n"@ + drawing
            + "\n\nProvisioning URL: "@ + url + "\n\n"@,
        Err(why) => "Could not render QR code: "@ + why + "\nProvisioning URL: "@ + url + "\n"@,
    }
}

/// What the user is shown, given the drawing of the address or why there is
/// none.
pub fn notice_for(url: &str, drawing: Result<String, String>) -> (s: String)
    ensures
        s@ == notice(
            url@,
            match drawing {
                Ok(drawing) => Ok(drawing@),
                Err(why) => Err(why@),
            },
        ),
{
    match drawing {
        Ok(drawing) => {
            let mut s = "\nScan this QR code with Signal (Linked Devices):\n\n".to_owned();
            s.append(drawing.as_str());
            s.append("\n\nProvisioning URL: ");
            s.append(url);
            s.append("\n\n");
            s
        },
        Err(why) => {
            let mut s = "Could not render QR code: ".to_owned();
            s.append(why.as_str());
            s.append("\nProvisioning URL: ");
            s.append(url);
            s.append("\n");
            s
        },
    }
}

/// What the user is shown to link the device: the provisioning address as a QR
/// code, with modules two characters wide and one high.
pub fn provisioning_notice(url: &str) -> (s: String)
    ensures
        s@ == notice(url@, qr_drawing(url.spec_bytes(), true, 2, 1)),
{
    notice_for(url, draw_qr(url.as_bytes(), true, 2, 1))
}

/// The user is shown the whole address, and the whole drawing or why there is
/// none.
pub proof fn law_user_is_shown_everything(url: Seq<char>, drawing: Seq<char>)
    ensures
        notice(url, Ok(drawing)) == "\nScan this QR code with Signal (Linked Devices):\n\n"@
            + drawing + "\n\nProvisioning URL: "@ + url + "\n\n"@,
        notice(url, Err(drawing)) == "Could not render QR code: "@ + drawing
            + "\nProvisioning URL: "@ + url + "\n"@,
{
}

} // verus!
