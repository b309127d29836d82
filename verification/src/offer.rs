//! A fixed offer for one H.264 video stream with a built-in host candidate and
//! certificate fingerprint, written with real CRLF line ends.
use vstd::prelude::*;

use crate::sdp::{Sdp, SdpView};

verus! {

/// The offer up to the local ufrag.
pub const FIXED_OFFER_HEAD: &'static str = "v=0\r\no=- 1625733337583270 1 IN IP4 192.168.1.2\r\ns=Mountpoint 99\r\nt=0 0\r\na=group:BUNDLE video\r\na=msid-semantic: WMS cloverleaf\r\nm=video 9 UDP/TLS/RTP/SAVPF 96 97\r\nc=IN IP4 192.168.1.2\r\na=sendonly\r\na=mid:video\r\na=rtcp-mux\r\na=ice-ufrag:";

/// The offer between the ufrag and the password.
pub const FIXED_OFFER_PWD: &'static str = "\r\na=ice-pwd:";

/// The offer after the password.
pub const FIXED_OFFER_TAIL: &'static str = "\r\na=ice-options:trickle\r\na=fingerprint:sha-256 5B:F5:FC:7E:5F:1B:21:86:37:A4:06:EF:48:A1:E0:E5:DB:93:5F:4F:05:B3:89:9A:11:E5:1E:15:81:D7:11:13\r\na=setup:actpass\r\na=rtpmap:96 H264/90000\r\na=fmtp:96 profile-level-id=42e01f;packetization-mode=1\r\na=rtcp-fb:96 nack\r\na=rtcp-fb:96 nack pli\r\na=rtcp-fb:96 goog-remb\r\na=extmap:1 urn:ietf:params:rtp-hdrext:sdes:mid\r\na=rtpmap:97 rtx/90000\r\na=fmtp:97 apt=96\r\na=ssrc-group:FID 1811295701 180905187\r\na=msid:cloverleaf cloverleafv0\r\na=ssrc:1811295701 cname:cloverleaf\r\na=ssrc:1811295701 msid:cloverleaf cloverleafv0\r\na=ssrc:1811295701 mslabel:cloverleaf\r\na=ssrc:1811295701 label:cloverleafv0\r\na=ssrc:180905187 cname:cloverleaf\r\na=ssrc:180905187 msid:cloverleaf cloverleafv0\r\na=ssrc:180905187 mslabel:cloverleaf\r\na=ssrc:180905187 label:cloverleafv0\r\na=candidate:1 1 udp 2015363327 192.168.1.2 42933 typ host\r\na=end-of-candidates\r\n";

/// The fixed offer that carries the credentials of `sdp`.
pub open spec fn fixed_offer_text(sdp: SdpView) -> Seq<char> {
    FIXED_OFFER_HEAD@ + sdp.ufrag + FIXED_OFFER_PWD@ + sdp.pwd + FIXED_OFFER_TAIL@
}

/// Writes the fixed offer with the credentials of `sdp`.
pub fn create_sdp(sdp: &Sdp) -> (r: String)
    ensures
        r@ == fixed_offer_text(sdp@),
{
    let mut out = FIXED_OFFER_HEAD.to_owned();
    out.append(sdp.ufrag.as_str());
    out.append(FIXED_OFFER_PWD);
    out.append(sdp.pwd.as_str());
    out.append(FIXED_OFFER_TAIL);
    assert(out@ =~= fixed_offer_text(sdp@));
    out
}

/// The fixed offer carries the credentials whole on their own lines: the
/// lines `a=ice-ufrag:UFRAG` and `a=ice-pwd:PWD` follow one another, each
/// ended by `\r\n`.
pub proof fn law_fixed_offer_carries_credentials(sdp: SdpView)
    ensures
        exists|head: Seq<char>, tail: Seq<char>|
            fixed_offer_text(sdp) == head + "a=ice-ufrag:"@ + sdp.ufrag + "\r\na=ice-pwd:"@ + sdp.pwd
                + "\r\n"@ + tail,
{
    reveal_strlit("v=0\r\no=- 1625733337583270 1 IN IP4 192.168.1.2\r\ns=Mountpoint 99\r\nt=0 0\r\na=group:BUNDLE video\r\na=msid-semantic: WMS cloverleaf\r\nm=video 9 UDP/TLS/RTP/SAVPF 96 97\r\nc=IN IP4 192.168.1.2\r\na=sendonly\r\na=mid:video\r\na=rtcp-mux\r\na=ice-ufrag:");
    reveal_strlit("a=ice-ufrag:");
    reveal_strlit("\r\n");
    reveal_strlit("\r\na=ice-options:trickle\r\na=fingerprint:sha-256 5B:F5:FC:7E:5F:1B:21:86:37:A4:06:EF:48:A1:E0:E5:DB:93:5F:4F:05:B3:89:9A:11:E5:1E:15:81:D7:11:13\r\na=setup:actpass\r\na=rtpmap:96 H264/90000\r\na=fmtp:96 profile-level-id=42e01f;packetization-mode=1\r\na=rtcp-fb:96 nack\r\na=rtcp-fb:96 nack pli\r\na=rtcp-fb:96 goog-remb\r\na=extmap:1 urn:ietf:params:rtp-hdrext:sdes:mid\r\na=rtpmap:97 rtx/90000\r\na=fmtp:97 apt=96\r\na=ssrc-group:FID 1811295701 180905187\r\na=msid:cloverleaf cloverleafv0\r\na=ssrc:1811295701 cname:cloverleaf\r\na=ssrc:1811295701 msid:cloverleaf cloverleafv0\r\na=ssrc:1811295701 mslabel:cloverleaf\r\na=ssrc:1811295701 label:cloverleafv0\r\na=ssrc:180905187 cname:cloverleaf\r\na=ssrc:180905187 msid:cloverleaf cloverleafv0\r\na=ssrc:180905187 mslabel:cloverleaf\r\na=ssrc:180905187 label:cloverleafv0\r\na=candidate:1 1 udp 2015363327 192.168.1.2 42933 typ host\r\na=end-of-candidates\r\n");
    let h = FIXED_OFFER_HEAD@;
    let t = FIXED_OFFER_TAIL@;
    let head = h.subrange(0, h.len() - 12);
    let tail = t.subrange(2, t.len() as int);
    assert(h =~= head + "a=ice-ufrag:"@);
    assert(t =~= "\r\n"@ + tail);
    assert(FIXED_OFFER_PWD@ == "\r\na=ice-pwd:"@);
    assert(fixed_offer_text(sdp) =~= head + "a=ice-ufrag:"@ + sdp.ufrag + "\r\na=ice-pwd:"@ + sdp.pwd
        + "\r\n"@ + tail);
}

} // verus!
