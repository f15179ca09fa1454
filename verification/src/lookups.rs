use vstd::prelude::*;

use crate::rng::{XorShiftState, XORSHIFT_SEED, xorshift, xorshift_n};
use crate::shatranj::piece::Piece;
use crate::shatranj::types::Square;

verus! {

/// The Zobrist keys of the twelve pieces on the 64 squares: the outputs of the
/// xorshift generator from its seed, piece by piece and square by square.
pub const PIECE_KEYS: [[u64; 64]; 12] = [
    [
        0xF95862C0A77714CEu64,
        0x196E44080BAB0967u64,
        0xE7A3BB525D38E6B5u64,
        0x57C135CF9F1D9A38u64,
        0x1EDADFA42A1A2F0Cu64,
        0x4901441A11805852u64,
        0x650D9F58567B0C62u64,
        0x66336B8D5C6CA2FAu64,
        0x8055D6C7C3DD853Fu64,
        0x533A23D8287691F5u64,
        0x5E590BE21490A196u64,
        0x781EC2A4AA092555u64,
        0x279E4837C100C25Fu64,
        0xEDAA6C849ECFB41Bu64,
        0xB43D2F9B49FA4DB3u64,
        0xA5BF4AB0239CB5E8u64,
        0x74CCF8C9DF4DF683u64,
        0x3B4E2A1B7A02ADAEu64,
        0x40526C019F020375u64,
        0xFB75C2FAE8B47A33u64,
        0xD60BB4A84333FE07u64,
        0xA2B0C0A250FCF83Bu64,
        0x3C80AB606A726F0Bu64,
        0xD77B88DA29F62915u64,
        0xBFD2466565032007u64,
        0x58D1C113040FC787u64,
        0xED91F4DC6A96D9C8u64,
        0x085734E4A03A867Bu64,
        0x8052598A2C7A0DB7u64,
        0x7E8F14138FCF746Cu64,
        0x6376142156887184u64,
        0x15AAAA9EB8C78067u64,
        0x5E8207C8A914F6A7u64,
        0xD7D82390CEBB968Au64,
        0x0E6B0817355C0327u64,
        0x1574A5C4E99092E1u64,
        0xC1C18CF141332B84u64,
        0xC6820F88D3AD2CD3u64,
        0x61D0EA60C84F224Au64,
        0xE97A363323426E8Eu64,
        0xFB1C9A62CBE889D3u64,
        0xADB3A8577D674C00u64,
        0xB3E0F2E966FE8298u64,
        0xE7F3120B68FAD99Du64,
        0xB36D2CB7CD72EB6Eu64,
        0x53B164CD894F1538u64,
        0x7749C230291BC512u64,
        0xFEAB36A89B2AF618u64,
        0x2A426542158A25F4u64,
        0x815E9C912EE8CCBFu64,
        0x12147E1D0ADDD2E6u64,
        0x7D1C0B381C6610C3u64,
        0x00C89120AF868C22u64,
        0xA97AE0244D8AC9BAu64,
        0xDE18E86FDBC6F2A9u64,
        0xB0F16E00C180F50Cu64,
        0xB5B269E2D15337E6u64,
        0xA621622E76D2A809u64,
        0x402BF28595A62F19u64,
        0x5365D37A38EB8507u64,
        0xEA478CF86141F3CDu64,
        0x784CCEDDB952236Au64,
        0x4E5C728E299D1DACu64,
        0x98284EAB6812CC97u64,
    ],
    [
        0x23021E283A7F2CCEu64,
        0x4EACB7E752772117u64,
        0x23C5376030136A95u64,
        0x422250F60BFB4900u64,
        0xD97808978F3AFF92u64,
        0x80DE4E506CB32EEDu64,
        0x9F0561B9229C53F0u64,
        0x7196DA06531D9757u64,
        0xD309E82C194699B9u64,
        0x0875F41876715ACAu64,
        0x99DCF407646C4AFFu64,
        0x4625516863BDCDAAu64,
        0x769B86DCDCDE9CB1u64,
        0x3CB79FD1DAC62DC8u64,
        0xB1532543AA67D393u64,
        0x990E3BC47F5D98F4u64,
        0xEC457EF0AE519EC5u64,
        0xF8C58C88B1C22CB8u64,
        0x2ECD18FE987F86E1u64,
        0x50047A83492AE1ACu64,
        0xA9E809EBE7EB5F6Fu64,
        0x167D9DC1C53CB211u64,
        0xF8D7119C41B26F35u64,
        0xBBE3E001951A66ABu64,
        0xEC632DFEAD3098A6u64,
        0x0B9F5F182F761017u64,
        0xA53AA31F334019F7u64,
        0x1F404BC1D6160404u64,
        0x15D6209642A3A90Cu64,
        0x124006C9E9512D5Eu64,
        0x01941F523A6B1884u64,
        0xCA246B3DB8A36FB5u64,
        0xF0EE566F4EAB642Au64,
        0xCBDD5411A6AE7862u64,
        0xDD961CE719557C12u64,
        0xCA52B147096E926Au64,
        0xD4D6B9E1250995CEu64,
        0x93186744FD553565u64,
        0xACF017834BD0664Fu64,
        0x5355152BDF11B543u64,
        0xEC3B7AC137B8A6E9u64,
        0xB77904C8D4EB4DE4u64,
        0x2A1DF233D2D3627Fu64,
        0xEB81E4BA1B17BB7Bu64,
        0xC39631D7083A2ACDu64,
        0x1744528376494DD8u64,
        0xB44B82A999CBA943u64,
        0xDC711687D0980ED1u64,
        0xA1C75E8CADF8AA8Cu64,
        0x87C959152E6A78D9u64,
        0xFBF18846A563BA68u64,
        0x97CAA146C9B2E71Cu64,
        0xBB655477FFDFC5D2u64,
        0xE87E420D82D94ED9u64,
        0x3B1B811AD25C6A04u64,
        0x1E6151A25A02D3D0u64,
        0x5592382780962277u64,
        0xD9F9B907C9B773F3u64,
        0x0A6679BC462E81D4u64,
        0x61ED98EB369629D7u64,
        0xECDE1F52A0C39044u64,
        0x68D2AD014BA68664u64,
        0xFFF281C4D48CD268u64,
        0xB05247DB47C451CCu64,
    ],
    [
        0x03A369B1DEB82A6Fu64,
        0x9FCC544655B421FBu64,
        0x3AF4779D9ED85778u64,
        0x22F3F9F06AB339D6u64,
        0x83E8EC6A95D8EA25u64,
        0x740122B6CEEF72B1u64,
        0xF9CCB96DB6D02014u64,
        0xF56D76C6D71F0554u64,
        0xD5F83CC8A166EE5Eu64,
        0x06AE821D5C507402u64,
        0x30C80B2F54A1946Au64,
        0x453E9BB90B648DC2u64,
        0xC4254A72D95B7459u64,
        0xE347CE04ED5DF4F1u64,
        0xA0A247C0ABD45358u64,
        0x25B44DE70E002DFEu64,
        0xD7AE362E61E29225u64,
        0x4A850264EB437E41u64,
        0xF37937360C7848FDu64,
        0x469C278E3935272Cu64,
        0xB53AA2BFC02F0662u64,
        0xE0B1294A557E80EEu64,
        0x6257CFF142B7866Fu64,
        0xF24F4E55D85892A3u64,
        0xE6DA1185A114EB46u64,
        0x447B94E5D424D310u64,
        0xF6F1F98931B65EB6u64,
        0x745255283A825F8Bu64,
        0x4733BFFF3279D9F4u64,
        0xB2AB13A8C7DBD747u64,
        0xBFF583D7B81B5129u64,
        0xDBEA9D09600C0DCBu64,
        0xC58EC686FE560710u64,
        0x5799E8EC78F56F1Eu64,
        0xB42B0E44343C8240u64,
        0x4BEC09AAF5B46B44u64,
        0x002865E8E5095292u64,
        0xABFAEA3015ABA4B7u64,
        0xD5F946AA17833E3Eu64,
        0x4473D51A2B2077C2u64,
        0x5C108279D6C987ADu64,
        0x4364483118345FE2u64,
        0x9435563EE3558FDDu64,
        0xE00E9B561D0F7382u64,
        0x138EA9758753CDE5u64,
        0x7474DB89A76EB33Eu64,
        0x27AE976C7A5B61D8u64,
        0xC8872E8E1A7AA11Bu64,
        0xAD39D99029F77299u64,
        0x0108FF41AE531A3Cu64,
        0x08E0BE03BC9EB308u64,
        0x0F181C57D2F64C6Eu64,
        0x8B01D15FFFA17B76u64,
        0x45A5742ACF6E2400u64,
        0x31CF666F7569F848u64,
        0xC71F103BBD8439B8u64,
        0x8BDA0EC893505FCBu64,
        0xFEA0A1AB06F06DB4u64,
        0x3EAF2857218E606Fu64,
        0xD5EEC74F2E86876Fu64,
        0x54A8AFF5A2D5B1A1u64,
        0x2EE42208EFCC5282u64,
        0x40ED7B20D2192AA7u64,
        0x091412E792C75132u64,
    ],
    [
        0x68A27D5FA030D310u64,
        0x13D18807E44A76B6u64,
        0x8E5BB9F4A87F8FDBu64,
        0x35D2B8CD633FE604u64,
        0x67091702FB5098C8u64,
        0x7092E9CA2E6B0BF9u64,
        0xDB4E784B46D603AEu64,
        0x290ED5EDADFC8429u64,
        0xFF71349437C15761u64,
        0x3241FF269E092D8Fu64,
        0xC0C28F210CE7BC14u64,
        0x57C5E2C76C4BF66Cu64,
        0x80EB28167BA37A80u64,
        0x8D7B9519E8309C75u64,
        0xCCB891DD4453400Du64,
        0xA1753B31099045CDu64,
        0x7E7132606B27B606u64,
        0xD2786CC3E508B8EAu64,
        0x7EDBBFA191C7D31Bu64,
        0xAC396065AD89FA7Du64,
        0xFDCBC9B89671D6C9u64,
        0xC075A1230FB9A724u64,
        0xB2124502A9FF9D6Au64,
        0x137D35D1D14678D0u64,
        0xB76159276C22C021u64,
        0xE2E9DB57298CADE1u64,
        0xA804DA8BA8BCECFAu64,
        0x3AB51E50DA0FEBA3u64,
        0x6E7BF171FC5D7CB4u64,
        0xDABA2BBF71F66B4Du64,
        0x22E721C75650F4DBu64,
        0x2E64D02F55BE03F2u64,
        0x44D2B13A2201C375u64,
        0x2FF1C227953DBDB3u64,
        0xA2581F7CB6DECA08u64,
        0x6D9CA435CA78F59Cu64,
        0xAA686B85E78CE377u64,
        0x6BE3C0F11DF7C771u64,
        0x22C8ED2ED3ADD4BFu64,
        0xE57852E55E4440D6u64,
        0x8F45AB3BF65C3DD7u64,
        0x1AE1B251B1DD106Cu64,
        0x8A375C8CA56F314Cu64,
        0x6A078631799C3C2Eu64,
        0xCF55DD9B6449CFD6u64,
        0x8CEF8E60AA9A69C9u64,
        0xC5D2DCDD9ED80F5Au64,
        0x64C4D9C2C18529C4u64,
        0x0FE07818255AD297u64,
        0x747689A65C1222F2u64,
        0x29486659A412FA37u64,
        0x8D34CD3B28A4B203u64,
        0x0A454C4DD6D71BA7u64,
        0x7C7F58EB6368BC50u64,
        0x779200F98A5B7928u64,
        0x60412AB88B0085DAu64,
        0x6AC242B64E2EB251u64,
        0x661B5CCDC9BE5B75u64,
        0xCDFA0D9B43D35A83u64,
        0x6304228E933E3CF6u64,
        0x508A571BFC17BD0Fu64,
        0xEFCD898A5ACB31B5u64,
        0x28EC0E5E4FA86A96u64,
        0xB83DA0DAABF95FC3u64,
    ],
    [
        0x7CA32E4CB0793DBCu64,
        0xC33E4CF1516F20C7u64,
        0x46973E2B52912F46u64,
        0x41B3FBFFBCA71C98u64,
        0x1656876760C874A1u64,
        0xF8663AA94A90EC08u64,
        0xD4F436A33E1FCFD0u64,
        0x71001D160EF4044Fu64,
        0x40A5A7B3206F1F87u64,
        0x3DC818083EE8C078u64,
        0x256194BE935A0FF8u64,
        0x43695858F2CE45E7u64,
        0x6DA8F281B95E40ACu64,
        0x1B5D7F738BF3572Du64,
        0x65F99DB84F52DAC3u64,
        0x4417693FEF4EAFB6u64,
        0x439DD865A81F1F69u64,
        0x66194177314BDB17u64,
        0xDE8A256A247F6961u64,
        0xC55F2AA5DD27EFF3u64,
        0x2C0DC3135B403CECu64,
        0x7B1023E3A54E0795u64,
        0x605B6D0B4CC3DEDAu64,
        0xECD5D2774EB8AFE7u64,
        0x4D983A329502C778u64,
        0xE2CC04AFD19A1CF6u64,
        0xF85E1B2001BED54Fu64,
        0xE50F8663C2EB1B25u64,
        0xE66DC05B946AA453u64,
        0xA1BCA57166D705DBu64,
        0x6C090E79AB40BD10u64,
        0x239288516F4F786Au64,
        0x5B9A76768976BC1Au64,
        0x0953D286C18C17E2u64,
        0x6AA1574F436CB74Du64,
        0x1C710E00AAE81D63u64,
        0xCF1C5D46F924F599u64,
        0x92F0ADD7573CFA32u64,
        0x2139806A37664F46u64,
        0x4F0149ECD7C39258u64,
        0x3395B3358A3B837Cu64,
        0x4C14DB374954AB7Au64,
        0x7A2F197EDEDB9CACu64,
        0x1E730F09E73E8095u64,
        0x507EC10D1AEA78D4u64,
        0x30663622C7111925u64,
        0xA375E1E6C153D257u64,
        0x4809EF6122090033u64,
        0x746284A0BFED7EF3u64,
        0xD8482A5D5B8F78CEu64,
        0xD0E45DD1C68195BFu64,
        0xE87F3677C5761954u64,
        0x5425C5E4F49C2066u64,
        0x3EC355221D3DC1A6u64,
        0xE59E842E890913A5u64,
        0xF23A0BF325AF48C2u64,
        0x7D1265C48C8866D3u64,
        0x72B3F7186EEEA2DEu64,
        0xBA2838B021F6081Bu64,
        0x3DABBA9EF8A282CBu64,
        0x60EEEE1597B6150Eu64,
        0xB4E3232166F5FAA4u64,
        0xD2E64DC456B03851u64,
        0xEE5090AEADDB6C61u64,
    ],
    [
        0x628218302E25E2F9u64,
        0x0A59E37315A6377Cu64,
        0xEBD3571A14CB2412u64,
        0x6B6298FB9B1DF6DAu64,
        0x18933B5562E33BB7u64,
        0xB7484B1AF79EF000u64,
        0x38D2B459600DCDE0u64,
        0x3855FB6D34F4AE7Bu64,
        0xDCA6A1BB35B7B9E7u64,
        0xC187569F47A64F54u64,
        0x052CA5B7F4C456CAu64,
        0x4F8B2E5B792F2CE7u64,
        0xA9EC02E93776AB7Eu64,
        0xA57D9DF55E8D59A8u64,
        0x767FC8EEEE65291Bu64,
        0x2C6CCEA984C2C589u64,
        0xAF49F25BBB4F0242u64,
        0x9050FF5AA63D4CC6u64,
        0x3730B7BFBA04C7DFu64,
        0xBD79770B6F9AD990u64,
        0xC724A34ED4878823u64,
        0x95B0D0BC462EEFF3u64,
        0xA32AC707353F2EECu64,
        0x91FA976546216BB1u64,
        0xE52C40DDE3CDE526u64,
        0x4B57BCF2F90FF76Cu64,
        0x5D9933CFC6E9B382u64,
        0x6E1EA07555B2C065u64,
        0xEEC93D9CB2EF1CA5u64,
        0x75C5F92444614BDCu64,
        0xADE2C8CAC156FE4Bu64,
        0x3A91DA849C4CA177u64,
        0x96FCEF7A199885F5u64,
        0x1D26BD79484869BEu64,
        0xC5ADCCB2082F56EDu64,
        0x899AE0C2AB371300u64,
        0xB5B7B3447B89BD26u64,
        0x47C2CF27690D27DCu64,
        0xC29FEE98554B4A93u64,
        0xC4C0C13B6FED18C6u64,
        0x1A60E14727823377u64,
        0x2D3C8BE21A8D0AD1u64,
        0x2F7DF063D5A88484u64,
        0x43D5B8A781A8748Du64,
        0x612F9E4CE46FA724u64,
        0x0E4AEB90F07E316Au64,
        0x5B76940BA72FD788u64,
        0x96BB0DE5552B6A27u64,
        0xA6F4D83012795533u64,
        0x421EB296D01C8B59u64,
        0x75EC27AEE3EB440Fu64,
        0x60B390DCCEF27147u64,
        0xA0AC52A6CD112465u64,
        0xDE88BA8F9E94BF6Du64,
        0x3FD59D1869CDED53u64,
        0x776D529F135D4249u64,
        0x47AE6951C7784A8Du64,
        0x39AA3E76C105B958u64,
        0x21AD9A1F1296E42Au64,
        0xDAB10FA2534B8362u64,
        0x6432A583ACA98CE4u64,
        0x9B8EB5A87DF566FDu64,
        0xD7643473DA689370u64,
        0x6608F08D893A9E56u64,
    ],
    [
        0x9EBA6DA2F291BEEAu64,
        0x8D86661BEAE86717u64,
        0x632746FD4FF49219u64,
        0xB754AAC460F6DD7Du64,
        0x5F6622C89121CF87u64,
        0x0713AD8C6A308DD8u64,
        0xBB50BA72DAFA9AC3u64,
        0x1499798CACDDBF36u64,
        0x4041D7D5269D09C8u64,
        0x718F10B6091D41DBu64,
        0x56D3F6FE51546D98u64,
        0x6106CE1033D8A343u64,
        0x3A42A204B475A2C5u64,
        0x0F1818B9A5AD58C0u64,
        0x68BF1F04724A3271u64,
        0xD69672B79AC61A55u64,
        0x19280E93C17DA321u64,
        0x1C6999B66DBDB027u64,
        0xFA525AB59D002287u64,
        0x71E9840374666302u64,
        0x335E77B6F9FE2F44u64,
        0x0FE3A5052A5A821Au64,
        0x77284B9505D1F19Eu64,
        0xC35495D28E6FF5FDu64,
        0x626385F4A49DF556u64,
        0x44730343627B5B3Cu64,
        0x97F77BCFD41AE28Au64,
        0x40E3BEF87AC535CFu64,
        0xA6D5F34BC50C2C64u64,
        0xFD76DAFECE79AD3Cu64,
        0x840A6164BAE59166u64,
        0xBE1E4A65FF50C3C4u64,
        0xD775A1A8DE601343u64,
        0x15A61070D2FA63A5u64,
        0x6270D95C7DF7DE22u64,
        0xB9376630B103F91Eu64,
        0x70BB4D881D64796Cu64,
        0xAC49EC620E516A9Eu64,
        0xDD00C07A2CD2AFCBu64,
        0xF152E95889719854u64,
        0xBA2DA5998BC7EE64u64,
        0x5D12C006459778B8u64,
        0x5C53AB0F33477849u64,
        0x7A9A0E109A04C4F9u64,
        0x61FBE85704FED330u64,
        0xC97A74928A09E296u64,
        0x6DD7D7F7389194D3u64,
        0x530EE2BB066BE33Au64,
        0xECA21C83E200BA7Cu64,
        0xA668E1493AB5A408u64,
        0x301227C22BA8CD40u64,
        0x18E70EBBC5D0CCDAu64,
        0xD519A90BE8751BC3u64,
        0xAAA2269B83F36134u64,
        0x873DFC5CB1E64AF6u64,
        0x35AE76274F8FFBE3u64,
        0x6F4E71CDE43A7CD4u64,
        0xE5955F3F44ADBD2Du64,
        0xEB651F19BCC00D17u64,
        0x01B658E0EF8228CDu64,
        0xE80A0607F476BFDCu64,
        0x736B0EEC7A8C25A3u64,
        0xCBEEE736EF943528u64,
        0x4245E9774F675742u64,
    ],
    [
        0x53A0F312801C096Cu64,
        0x01F76030F7CFEA7Eu64,
        0xD443AD1ECCC12A2Au64,
        0xC87C7CC121AB62FEu64,
        0x67E0DA9B32194BBBu64,
        0xCB098D104480F7ECu64,
        0x5E48671840CF8D03u64,
        0x21B15DC5D7BF32D9u64,
        0xE3E55FF3E07FDAFCu64,
        0x63FCD397D7841A49u64,
        0x921601FCDA1EA03Du64,
        0xC1992980147F323Du64,
        0x17D3A2E02BEEE319u64,
        0x12ED20177D5CD89Fu64,
        0x97C52F24D25FA6EEu64,
        0xDE4E079B3C896223u64,
        0x2B14131334A29827u64,
        0x9AFC4BBE00C734D7u64,
        0x2ACFCB93756D6F7Eu64,
        0x6EF39413F173AA20u64,
        0x0F9AF79675D7C574u64,
        0x83774199BB9FB7FEu64,
        0x979DCDF2F7D8B711u64,
        0x862031DE3686E23Fu64,
        0x00DA2EC9F762803Bu64,
        0x6982CE53BBDD2BFBu64,
        0x609CB56450470F6Cu64,
        0x49F88E81DC2DDA72u64,
        0x90443B34D5215D46u64,
        0xDEAB5A3AC38C8E7Cu64,
        0x00185380D4278860u64,
        0x3950C3559381DF70u64,
        0x2AF7C3B9E2A300CEu64,
        0x2F014D6D3321B54Fu64,
        0x631F9DD99C4945E5u64,
        0x5F9DCC3409C00E2Eu64,
        0x10FB5BBD9B71C5B2u64,
        0x997FF80211F20AB9u64,
        0xEC231540E9DC60ECu64,
        0xB341387F5550632Du64,
        0x0B87A87FA2D1A8ABu64,
        0x664EF54B5E9F413Au64,
        0x1ADD5E0F65A57138u64,
        0xA7C3F3F457A175DAu64,
        0xDFEAF0227A8A01B1u64,
        0x44F6DB9F6F2D59F2u64,
        0xE6965F204E193FC1u64,
        0x49B5EC2B14CEDDFEu64,
        0x2A87BA705565FFC5u64,
        0x9B08852D99BC657Au64,
        0x52562E0427590330u64,
        0x99CC35D8235D7D36u64,
        0xA0E808147F7A4A4Cu64,
        0x0540D24B9BEFADD8u64,
        0x7BDFB7640B8E0483u64,
        0x2CDA9169501C584Au64,
        0xD632495A6A57327Au64,
        0xF2166C18283C429Eu64,
        0xB8717D9324195D9Bu64,
        0xA8A8C048FC7569E0u64,
        0x893327AE2B8DFB33u64,
        0x3229389EB3C84C05u64,
        0x236471428E867DDDu64,
        0xDDB073AC2973A666u64,
    ],
    [
        0x28BCCF67685018AAu64,
        0xB461E10E15A5D21Bu64,
        0xCEAB168F24477F7Fu64,
        0xA2E58F9C58BDCE41u64,
        0x4235C5ECFD8D059Du64,
        0x6EAE85E05628D8D6u64,
        0xEB18A56BFE667CE7u64,
        0x9C6E4E20AC2569DEu64,
        0x4B279D2A6006948Du64,
        0x10E21B6CD23A1AE4u64,
        0x6F7B12A169E657D1u64,
        0xCEF0515606264F3Eu64,
        0x8C30F00DF21E0C20u64,
        0xCAB07328DF8D3838u64,
        0x414D56FE92EB2C48u64,
        0xA910C0B360ACE810u64,
        0xF39BC154DBD5B5C0u64,
        0xFB925BF4ECE16EABu64,
        0x8E453E88DDDA66B6u64,
        0x3334E12489D8BFFBu64,
        0x0FB112C881939044u64,
        0x884DDE074AB42664u64,
        0x6994F6F7C3B45728u64,
        0xC39C0D1BA0CFF586u64,
        0x4D5BB277CD19CBEDu64,
        0xF9E5DA5A1BF8A33Au64,
        0xCA054F16FC78DCFCu64,
        0xDC51F7E9F0A29245u64,
        0xC3B5233195EDE621u64,
        0x0842D5581A2195ADu64,
        0x592C243A2B491DC6u64,
        0xB3336A51D21A3E7Du64,
        0x9AA0C34EDA7C3541u64,
        0x97AE36EA24BBBD6Bu64,
        0x78E2C7F84812F0D1u64,
        0xCA92312E60C4C170u64,
        0xA837B8FABCFF14F2u64,
        0x22E19700B86B965Bu64,
        0x163A2166BE5BB7B7u64,
        0xE433FD38890C0D18u64,
        0x1121B0BD9CBA5302u64,
        0xF92169C3CD3FA724u64,
        0x9138C115D37C916Au64,
        0x1711242A504372C8u64,
        0xBE0FB232F63C462Du64,
        0xB6805724BFC615E1u64,
        0xAFA7825C4694C18Au64,
        0xFA6454AA560ACA89u64,
        0x88BF4EDD63FD5D5Cu64,
        0x376930EB6C0A70E6u64,
        0x7AF75975CD5C9D87u64,
        0x36C597BCA8A9A57Cu64,
        0x4863F8D09D522936u64,
        0x064F43242C0C00E4u64,
        0xCDA65FB9A482A1E5u64,
        0x95A28F4158937DE6u64,
        0xA7F51398547BE29Du64,
        0x2FC719D522481218u64,
        0x40AA76711033043Cu64,
        0x37C7A074443DED34u64,
        0xB70A8672A9B45BEEu64,
        0x53CE0FFABB3E08D9u64,
        0xE74DBB8E85C16288u64,
        0x775D9A664059424Du64,
    ],
    [
        0x240A154835D2C389u64,
        0xCDC54724C1E4A44Eu64,
        0x5CA7572918CBBE86u64,
        0x569EEF529F33487Bu64,
        0x21F96A6D3F86502Bu64,
        0x44A038D6A2FE364Bu64,
        0x719D74AE073138E7u64,
        0x94F7C5FBB6C18356u64,
        0x281BA109EA0615D0u64,
        0x8E619CAB611B6DFBu64,
        0x8E5D2013977D45E0u64,
        0xF2B863244968C76Bu64,
        0x589BD5901B6CAC25u64,
        0x28CD6EBBCD8FDC3Du64,
        0xC25867ECFBEE6CC5u64,
        0xA9F89B5456A2215Cu64,
        0xD0A110FA7690B21Eu64,
        0xB67342B199E6D4FAu64,
        0xA9458890965967D3u64,
        0x72B92EC38E6E41DCu64,
        0x6CAF28028E676A5Fu64,
        0xC6C7D8E8597CD34Bu64,
        0xF161FF477CC9982Du64,
        0xCAEBE458B3E9A05Du64,
        0xD08FAA1A4457C45Du64,
        0xD32C401E248FDC95u64,
        0xEC945AC04C7B466Cu64,
        0xF0D0BE16ED3FABE0u64,
        0x6830B390231D2CB7u64,
        0x1B86F191D7DADB2Eu64,
        0x81C711B093966518u64,
        0xA0BD56D3C42F0FD2u64,
        0xCA66F3374304E54Du64,
        0x22EAFB454F9C1FC7u64,
        0xD15E15EBCD8C3638u64,
        0x46C15539BF75A054u64,
        0x309BE4C11941DE14u64,
        0xCC5621EA419658A8u64,
        0x766DC82787A45E19u64,
        0x1BB2BE5DCBB5B0E5u64,
        0xA6ABA381AEDA42C4u64,
        0x919287E9DDCDC741u64,
        0x06BCE8F79CF1AC8Fu64,
        0x242BAB3A621E8C16u64,
        0xAC80FF41A9E7748Eu64,
        0x85DD60190E3659E7u64,
        0xD335085D23A8AC94u64,
        0xD03A1DDCD7CC58CDu64,
        0x9AF0A8F3B014533Cu64,
        0x8868B342B133349Au64,
        0x5660D8B076E93473u64,
        0x3A6F2E4EBF719ADBu64,
        0xB6BE2E36936EAF2Eu64,
        0x68D9EDAF03E679F0u64,
        0xFE56034BF947C903u64,
        0x3B748E550AC56651u64,
        0x0D4C29D50CF958DDu64,
        0x43D30200C9F53D2Cu64,
        0x59C418102A201C56u64,
        0xF9AE929D922589EEu64,
        0x9E9BF82463A4797Du64,
        0x752CD01DD0CCCECFu64,
        0x8751B7DE48A30492u64,
        0xE4A652F5F057261Bu64,
    ],
    [
        0x14E8C85C37936E97u64,
        0x1D9E85D91DE10D8Au64,
        0x16EC01782C0AED11u64,
        0x920F8467BA5D9C8Bu64,
        0x89D2D6749B3B6572u64,
        0x2989DD6DCE0A0F38u64,
        0x4ACB81807CBED526u64,
        0xC8996BA7CB4E210Cu64,
        0x77F16F096FED7E4Eu64,
        0x9E463138C7C0F732u64,
        0x8FF75ABAAC2CFA5Cu64,
        0xFA2BD5222451B4A8u64,
        0x9C980B4939633DC1u64,
        0x00B1E6F0C392ABFAu64,
        0x7EE806FFF39A302Du64,
        0x5030CE94F2EEAF0Du64,
        0x61A0FEEA97671113u64,
        0xD03DA4018E4DFBF1u64,
        0xB9B3AC40D9DDBC46u64,
        0x4D88F10635F5D6BEu64,
        0x9CA09BAF5B1A5293u64,
        0x3A91C8F8CC86A2F6u64,
        0x9A1C5D196C8FD233u64,
        0x0D4F01A1C54A2157u64,
        0x7254EFBE91C800D5u64,
        0x1985461E95D90594u64,
        0x833DE58E5B3F529Fu64,
        0x529BF2A8B5FA6BFAu64,
        0xDF28D737942E21ADu64,
        0xB7B7D08E59E7B6AEu64,
        0xE236C35DEEEA1243u64,
        0xB2D29F8BC0B536A7u64,
        0xA045190876B9150Au64,
        0xBC830A9021F065A0u64,
        0x850C4E8EABC8ED6Bu64,
        0x4D4492D2D5EB4671u64,
        0x355E31413B252CBDu64,
        0x0683511606C7E9A4u64,
        0xC9A21EE478EA8F77u64,
        0x52DFDA76140467A9u64,
        0xDD4CD1463F8CA526u64,
        0xFADF5666AFA635ECu64,
        0x59193F0648C78287u64,
        0x75E10E3E1D624C42u64,
        0x549C608EC0F7D85Au64,
        0x9EFE94F7D95F616Au64,
        0x12FFB5320748C528u64,
        0x69F0159494961EA2u64,
        0x6F84B5D1EFD2DA1Fu64,
        0x12BB32CBD32E186Bu64,
        0x6C75143931353E9Bu64,
        0x639885EC8D879226u64,
        0xCF2AD00D6E38D482u64,
        0xC262EBB26B17C5ABu64,
        0x8110EA96F345E0E0u64,
        0xFC55D71915855321u64,
        0x76BE417F8F10B1C7u64,
        0x9815D7C8A0D20164u64,
        0x1603902BBDF37C66u64,
        0xB07B19EC7FE7431Eu64,
        0xE499766BA29B8A18u64,
        0x9FB9EEC2D4673B0Cu64,
        0x4D6829E7C394B67Au64,
        0xB8A887D4FCDD4196u64,
    ],
    [
        0xD1FD28F3776C5E95u64,
        0x752F021DC7978368u64,
        0x5373B0B00549766Eu64,
        0xD3DD48DE67D7BF02u64,
        0x686ABB03F8EF90FCu64,
        0x9C58BC5DD75FF0DDu64,
        0xCBB22A96F5EED87Cu64,
        0xE47BC4BA4D249ACCu64,
        0x35DC93872233E0F9u64,
        0xF8BE960FEE609978u64,
        0x0003607E7621064Au64,
        0x031AF36C0FC996C6u64,
        0x652DB2A6FFBD746Bu64,
        0xEDC878AF1B147443u64,
        0xA2EC3D9456612C6Bu64,
        0x31798C21EAED94F3u64,
        0x94C10B9886F7131Au64,
        0x4A38AFCA1F257BBCu64,
        0x8093B59251A45E4Bu64,
        0x8F7E93EA5FB7E437u64,
        0xE2E0EB425609663Fu64,
        0x9FF748B64A5D1B33u64,
        0xF3F0672C09630DC5u64,
        0x65731DD85D361A9Eu64,
        0x0A6140E0410F112Bu64,
        0x4699F2886BFE25C9u64,
        0xA429EE3B579D8BC2u64,
        0x2B5FB79177820055u64,
        0x58B1299C97CDB115u64,
        0x015E694A75C2CF37u64,
        0x5E94594506AE6769u64,
        0xD4D057CC6819C1E7u64,
        0xCD60147019CD6BA4u64,
        0x58BF84C617369873u64,
        0xB82E03CD96B68983u64,
        0x4455FC6AB9A9E450u64,
        0xCE3D6E5A7D19A398u64,
        0xF844BA4A564676DFu64,
        0xB914D03AC648ADF2u64,
        0x7C91C74034030029u64,
        0x20769B1F8C7C2C69u64,
        0x72791380F500EE71u64,
        0x6EDC4D040EC553EDu64,
        0x8C380EA619E5820Au64,
        0xA4F42DEE8BEB8B8Eu64,
        0xFFDED5B4235D7F19u64,
        0x27DAE63274E923A7u64,
        0x58168D87FE7CF820u64,
        0xF5ECDDD8E21A09D0u64,
        0xB2BA46D407E049C3u64,
        0xF4DCBA2F6DE59990u64,
        0xA92797E8942C36A3u64,
        0x3BA2A1DC84C1A60Eu64,
        0x690A71E6F4E466C2u64,
        0xA331DBBC31D25E8Fu64,
        0x3B0C3CD20513B9F2u64,
        0x1CFE751BD6CBA201u64,
        0xB843FA400DC49505u64,
        0x1E9B30BA9484FD6Fu64,
        0x8DA1C490C1954F55u64,
        0xC26FE2450DB9108Bu64,
        0x24B09A9B8B23206Au64,
        0x6FDC0DC869A43CAAu64,
        0x7A43E5272B4B1E53u64,
    ]
];

/// The Zobrist key for white to move: the generator's next output.
pub const SIDE_KEY: u64 = 0x9A77666E2D4E7CAFu64;

/// The key of `piece` standing on `sq`.
#[verifier::opaque]
pub open spec fn piece_key(piece: Piece, sq: int) -> u64 {
    PIECE_KEYS[piece.idx()][sq]
}

pub fn piece_key_exec(piece: Piece, sq: Square) -> (r: u64)
    ensures
        r == piece_key(piece, sq.idx()),
{
    proof {
        reveal(piece_key);
    }
    PIECE_KEYS[piece.index()][sq.index()]
}

/// Generates the piece keys and the side key from the xorshift generator.
pub fn init_hash_keys() -> (r: ([[u64; 64]; 12], u64))
    ensures
        forall|p: int, s: int| 0 <= p < 12 && 0 <= s < 64 ==> #[trigger] r.0@[p]@[s] == xorshift_n(XORSHIFT_SEED, (p * 64 + s + 1) as nat),
        r.1 == xorshift_n(XORSHIFT_SEED, 769),
{
    let mut state = XorShiftState::new();
    let mut piece_keys = [[0u64; 64]; 12];
    let mut index: usize = 0;
    while index < 12
        invariant
            index <= 12,
            state.state == xorshift_n(XORSHIFT_SEED, (index * 64) as nat),
            forall|p: int, s: int| 0 <= p < index && 0 <= s < 64 ==> #[trigger] piece_keys@[p]@[s] == xorshift_n(XORSHIFT_SEED, (p * 64 + s + 1) as nat),
        decreases 12 - index,
    {
        let mut row = [0u64; 64];
        let mut sq: usize = 0;
        while sq < 64
            invariant
                index < 12,
                sq <= 64,
                state.state == xorshift_n(XORSHIFT_SEED, (index * 64 + sq) as nat),
                forall|s: int| 0 <= s < sq ==> #[trigger] row@[s] == xorshift_n(XORSHIFT_SEED, (index * 64 + s + 1) as nat),
            decreases 64 - sq,
        {
            let (key, next) = state.next_self();
            state = next;
            row[sq] = key;
            proof {
                assert(xorshift_n(XORSHIFT_SEED, (index * 64 + sq + 1) as nat) == xorshift(xorshift_n(XORSHIFT_SEED, (index * 64 + sq) as nat)));
            }
            sq = sq + 1;
        }
        piece_keys[index] = row;
        index = index + 1;
    }
    let (key, _) = state.next_self();
    proof {
        assert(xorshift_n(XORSHIFT_SEED, 769) == xorshift(xorshift_n(XORSHIFT_SEED, 768)));
    }
    let side_key = key;
    (piece_keys, side_key)
}

} // verus!
