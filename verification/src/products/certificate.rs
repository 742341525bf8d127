//! Traceability certificates: the public provenance record rendered as a PDF by
//! an external renderer, whose output is accepted only when it is a PDF.
use crate::products::provenance::ProvenanceService;
use std::sync::Arc;
use vstd::prelude::*;

verus! {

/// Why a certificate could not be produced (500).
#[derive(Clone, Copy, PartialEq, Eq, Structural, Debug)]
pub enum CertificateError {
    /// The renderer failed or did not answer with a PDF document.
    RendererFailed,
    /// The renderer did not finish in time.
    TimedOut,
}

impl CertificateError {
    /// The message the service answers with.
    #[verifier::allow_in_spec]
    pub fn message(&self) -> &'static str
        returns
            (match self {
                CertificateError::RendererFailed => "Could not generate traceability record",
                CertificateError::TimedOut => "PDF generation timed out",
            }),
    {
        match self {
            CertificateError::RendererFailed => "Could not generate traceability record",
            CertificateError::TimedOut => "PDF generation timed out",
        }
    }
}

/// The signature every PDF document starts with.
pub open spec fn pdf_magic() -> Seq<u8> {
    seq![0x25u8, 0x50u8, 0x44u8, 0x46u8, 0x2du8]
}

/// `bytes` starts with the PDF signature `%PDF-`.
pub open spec fn is_pdf(bytes: Seq<u8>) -> bool {
    bytes.len() >= 5 && bytes.take(5) == pdf_magic()
}

/// Renders certificates from the provenance records.
pub struct CertificateService {
    pub provenance_service: Arc<ProvenanceService>,
}

impl CertificateService {
    pub fn new(provenance_service: Arc<ProvenanceService>) -> (r: CertificateService)
        ensures
            r.provenance_service == provenance_service,
    {
        CertificateService { provenance_service }
    }

    /// Accepts the renderer's output when it exited successfully and wrote a PDF.
    pub fn check_rendering(success: bool, output: Vec<u8>) -> (r: Result<Vec<u8>, CertificateError>)
        ensures
            r is Ok <==> success && is_pdf(output@),
            r matches Ok(pdf) ==> pdf@ == output@,
            r is Err ==> r == Err::<Vec<u8>, CertificateError>(CertificateError::RendererFailed),
    {
        if !success || output.len() < 5 {
            return Err(CertificateError::RendererFailed);
        }
        let magic: [u8; 5] = [0x25, 0x50, 0x44, 0x46, 0x2d];
        let mut i: usize = 0;
        while i < 5
            invariant
                i <= 5,
                output@.len() >= 5,
                magic@ == pdf_magic(),
                forall|k: int| 0 <= k < i ==> output@[k] == pdf_magic()[k],
            decreases 5 - i,
        {
            if output[i] != magic[i] {
                assert(output@.take(5)[i as int] != pdf_magic()[i as int]);
                return Err(CertificateError::RendererFailed);
            }
            i = i + 1;
        }
        assert(output@.take(5) =~= pdf_magic());
        Ok(output)
    }
}

} // verus!
