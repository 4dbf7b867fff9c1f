use luminal_vgd::error::CoreError;
use luminal_vgd::proto::err;

#[test]
fn codes_match_proto() {
    assert_eq!(CoreError::MaxMonitors.code(), err::MAX_MONITORS);
    assert_eq!(CoreError::NoSuchSession.code(), err::NO_SUCH_SESSION);
    assert_eq!(CoreError::Internal.code(), err::INTERNAL);
}
